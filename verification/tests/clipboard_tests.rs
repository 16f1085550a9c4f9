use pixel_editor::clipboard::{get_selection_pixels, paste_pixels};
use pixel_editor::color::Color;
use pixel_editor::history::EditCommand;
use pixel_editor::selection::Selection;
use pixel_editor::state::EditorState;

/// A 4 by 4 canvas whose pixel at (x, y) is (10x, 10y, 5, 255).
fn numbered_canvas() -> EditorState {
    let mut state = EditorState::new(4, 4);
    for y in 0..4u32 {
        for x in 0..4u32 {
            state.layers[0].set_pixel(x, y, Color::new((10 * x) as u8, (10 * y) as u8, 5, 255));
        }
    }
    state
}

#[test]
fn a_drag_up_and_left_normalizes_to_the_top_left_corner() {
    let mut selection = Selection::new(5, 5);
    assert_eq!(selection, Selection { x: 5, y: 5, width: 0, height: 0 });
    selection.drag_to(2, 2);
    assert_eq!(selection, Selection { x: 5, y: 5, width: -3, height: -3 });
    selection.normalize();
    assert_eq!(selection, Selection { x: 2, y: 2, width: 3, height: 3 });
    selection.normalize();
    assert_eq!(selection, Selection { x: 2, y: 2, width: 3, height: 3 });
}

#[test]
fn a_drag_across_one_axis_normalizes_that_axis() {
    let mut selection = Selection::at_pixel(1, 6);
    selection.drag_to(4, 2);
    selection.normalize();
    assert_eq!(selection, Selection { x: 1, y: 2, width: 3, height: 4 });
}

#[test]
fn a_selection_is_clamped_to_the_canvas() {
    let selection = Selection { x: -2, y: 1, width: 5, height: 10 };
    assert_eq!(selection.clamped(4, 4), (0, 1, 3, 4));
    let outside = Selection { x: 7, y: 7, width: 2, height: 2 };
    assert_eq!(outside.clamped(4, 4), (4, 4, 4, 4));
    let far = Selection { x: i64::MAX, y: i64::MIN, width: i64::MAX, height: i64::MIN };
    assert_eq!(far.clamped(4, 4), (4, 0, 4, 0));
}

#[test]
fn copy_reads_the_composited_colours_row_by_row() {
    let state = numbered_canvas();
    let pixels = get_selection_pixels(&state, Selection { x: 1, y: 2, width: 2, height: 2 });
    assert_eq!(
        pixels,
        Some(vec![10, 20, 5, 255, 20, 20, 5, 255, 10, 30, 5, 255, 20, 30, 5, 255])
    );
}

#[test]
fn copy_clips_the_selection_to_the_canvas() {
    let state = numbered_canvas();
    let pixels = get_selection_pixels(&state, Selection { x: 3, y: 3, width: 5, height: 5 });
    assert_eq!(pixels, Some(vec![30, 30, 5, 255]));
    let pixels = get_selection_pixels(&state, Selection { x: -3, y: -3, width: 4, height: 4 });
    assert_eq!(pixels, Some(vec![0, 0, 5, 255]));
}

#[test]
fn copy_of_an_empty_selection_is_nothing() {
    let state = numbered_canvas();
    assert_eq!(get_selection_pixels(&state, Selection { x: 1, y: 1, width: 0, height: 3 }), None);
    assert_eq!(get_selection_pixels(&state, Selection { x: 4, y: 0, width: 2, height: 2 }), None);
    assert_eq!(get_selection_pixels(&state, Selection { x: 3, y: 3, width: -2, height: -2 }), None);
}

#[test]
fn copy_selection_fills_the_clipboard_and_leaves_the_canvas() {
    let mut state = numbered_canvas();
    let before = state.layers[0].pixels.clone();
    state.copy_selection();
    assert!(state.clipboard.is_none());
    state.selection = Some(Selection { x: 2, y: 0, width: 9, height: 1 });
    state.copy_selection();
    let clipboard = state.clipboard.clone().unwrap();
    assert_eq!(clipboard.width, 2);
    assert_eq!(clipboard.height, 1);
    assert_eq!(clipboard.pixels, vec![20, 0, 5, 255, 30, 0, 5, 255]);
    assert_eq!(state.layers[0].pixels, before);
    assert_eq!(state.history.commands.len(), 0);
    state.selection = Some(Selection { x: 0, y: 0, width: 0, height: 0 });
    state.copy_selection();
    assert_eq!(state.clipboard.clone().unwrap().pixels.len(), 8);
    assert!(state.is_well_formed());
}

#[test]
fn copy_and_paste_at_the_same_origin_reproduce_the_pixels() {
    let mut state = numbered_canvas();
    let before = state.layers[0].pixels.clone();
    state.selection = Some(Selection { x: 1, y: 1, width: 2, height: 3 });
    state.copy_selection();
    state.paste_selection(1, 1);
    assert_eq!(state.layers[0].pixels, before);
    assert_eq!(state.history.commands.len(), 1);
}

#[test]
fn paste_writes_the_clipboard_and_records_the_changes_row_by_row() {
    let mut state = EditorState::new(4, 4);
    let a = Color::new(1, 2, 3, 255);
    let b = Color::new(4, 5, 6, 255);
    let c = Color::new(7, 8, 9, 255);
    let d = Color::new(10, 11, 12, 255);
    let pixels = vec![1, 2, 3, 255, 4, 5, 6, 255, 7, 8, 9, 255, 10, 11, 12, 255];
    state.layers[0].set_pixel(2, 1, Color::white());
    paste_pixels(&mut state, &pixels, 1, 1, 2, 2);
    assert_eq!(state.layers[0].get_pixel(1, 1), a);
    assert_eq!(state.layers[0].get_pixel(2, 1), b);
    assert_eq!(state.layers[0].get_pixel(1, 2), c);
    assert_eq!(state.layers[0].get_pixel(2, 2), d);
    assert_eq!(state.layers[0].get_pixel(0, 0), Color::transparent());
    assert_eq!(
        state.history.commands,
        vec![EditCommand::MultiPixelChange {
            layer_index: 0,
            changes: vec![
                (1, 1, Color::transparent(), a),
                (2, 1, Color::white(), b),
                (1, 2, Color::transparent(), c),
                (2, 2, Color::transparent(), d),
            ],
        }]
    );
    assert_eq!(state.used_colors.len(), 2);
}

#[test]
fn paste_partly_off_the_canvas_is_clipped() {
    let mut state = EditorState::new(4, 4);
    let pixels = vec![1, 2, 3, 255, 4, 5, 6, 255, 7, 8, 9, 255, 10, 11, 12, 255];
    paste_pixels(&mut state, &pixels, 3, 3, 2, 2);
    assert_eq!(state.layers[0].get_pixel(3, 3), Color::new(1, 2, 3, 255));
    assert_eq!(state.layers[0].pixels.iter().filter(|b| **b != 0).count(), 4);
    assert_eq!(
        state.history.commands,
        vec![EditCommand::MultiPixelChange {
            layer_index: 0,
            changes: vec![(3, 3, Color::transparent(), Color::new(1, 2, 3, 255))],
        }]
    );
    assert!(state.is_well_formed());
}

#[test]
fn paste_wholly_off_the_canvas_does_nothing() {
    let mut state = EditorState::new(4, 4);
    let pixels = vec![1, 2, 3, 255];
    paste_pixels(&mut state, &pixels, 4, 0, 1, 1);
    paste_pixels(&mut state, &pixels, u32::MAX, u32::MAX, 1, 1);
    paste_pixels(&mut state, &pixels, 0, 0, 0, 0);
    assert_eq!(state.history.commands.len(), 0);
    assert_eq!(state.layers[0].pixels, vec![0u8; 64]);
}

#[test]
fn paste_of_a_short_buffer_writes_the_pixels_it_holds() {
    let mut state = EditorState::new(4, 4);
    let pixels = vec![1, 2, 3, 255, 4, 5, 6, 255, 7, 8];
    paste_pixels(&mut state, &pixels, 0, 0, 2, 2);
    assert_eq!(state.layers[0].get_pixel(0, 0), Color::new(1, 2, 3, 255));
    assert_eq!(state.layers[0].get_pixel(1, 0), Color::new(4, 5, 6, 255));
    assert_eq!(state.layers[0].get_pixel(0, 1), Color::transparent());
}

#[test]
fn paste_selection_without_a_clipboard_does_nothing() {
    let mut state = numbered_canvas();
    let before = state.layers[0].pixels.clone();
    state.paste_selection(0, 0);
    assert_eq!(state.layers[0].pixels, before);
    assert_eq!(state.history.commands.len(), 0);
}

#[test]
fn paste_selection_moves_a_copy() {
    let mut state = numbered_canvas();
    state.selection = Some(Selection { x: 0, y: 0, width: 2, height: 1 });
    state.copy_selection();
    state.paste_selection(2, 3);
    assert_eq!(state.layers[0].get_pixel(2, 3), Color::new(0, 0, 5, 255));
    assert_eq!(state.layers[0].get_pixel(3, 3), Color::new(10, 0, 5, 255));
    assert_eq!(state.layers[0].get_pixel(1, 3), Color::new(10, 30, 5, 255));
}

#[test]
fn cut_copies_clears_and_records() {
    let mut state = numbered_canvas();
    state.selection = Some(Selection { x: 2, y: 2, width: 5, height: 5 });
    state.cut_selection();
    let clipboard = state.clipboard.clone().unwrap();
    assert_eq!(clipboard.width, 2);
    assert_eq!(clipboard.height, 2);
    assert_eq!(
        clipboard.pixels,
        vec![20, 20, 5, 255, 30, 20, 5, 255, 20, 30, 5, 255, 30, 30, 5, 255]
    );
    for y in 0..4u32 {
        for x in 0..4u32 {
            let expected = if x >= 2 && y >= 2 {
                Color::transparent()
            } else {
                Color::new((10 * x) as u8, (10 * y) as u8, 5, 255)
            };
            assert_eq!(state.layers[0].get_pixel(x, y), expected);
        }
    }
    assert_eq!(
        state.history.commands,
        vec![EditCommand::MultiPixelChange {
            layer_index: 0,
            changes: vec![
                (2, 2, Color::new(20, 20, 5, 255), Color::transparent()),
                (3, 2, Color::new(30, 20, 5, 255), Color::transparent()),
                (2, 3, Color::new(20, 30, 5, 255), Color::transparent()),
                (3, 3, Color::new(30, 30, 5, 255), Color::transparent()),
            ],
        }]
    );
    state.undo();
    assert_eq!(state.layers[0].get_pixel(3, 3), Color::new(30, 30, 5, 255));
}

#[test]
fn cut_without_a_selection_or_with_an_empty_one_does_nothing() {
    let mut state = numbered_canvas();
    let before = state.layers[0].pixels.clone();
    state.cut_selection();
    state.selection = Some(Selection { x: 1, y: 1, width: -1, height: 2 });
    state.cut_selection();
    assert!(state.clipboard.is_none());
    assert_eq!(state.layers[0].pixels, before);
    assert_eq!(state.history.commands.len(), 0);
}

#[test]
fn cut_takes_the_composite_and_clears_the_active_layer() {
    let mut state = numbered_canvas();
    state.add_layer("Top".to_string());
    state.layers[1].set_pixel(0, 0, Color::new(200, 200, 200, 255));
    state.select_layer(0);
    state.selection = Some(Selection { x: 0, y: 0, width: 1, height: 1 });
    state.cut_selection();
    assert_eq!(state.clipboard.clone().unwrap().pixels, vec![200, 200, 200, 255]);
    assert_eq!(state.layers[0].get_pixel(0, 0), Color::transparent());
    assert_eq!(state.layers[1].get_pixel(0, 0), Color::new(200, 200, 200, 255));
}

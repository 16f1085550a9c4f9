use pixel_editor::color::Color;
use pixel_editor::fill::apply_fill;
use pixel_editor::history::EditCommand;
use pixel_editor::state::EditorState;

const GREEN: Color = Color { r: 0, g: 200, b: 0, a: 255 };

/// A 5 by 5 canvas with a black wall down the middle column.
fn walled_canvas() -> EditorState {
    let mut state = EditorState::new(5, 5);
    for y in 0..5 {
        state.layers[0].set_pixel(2, y, Color::black());
    }
    state.set_primary_color(GREEN);
    state
}

fn filled_positions(state: &EditorState) -> Vec<(u32, u32)> {
    match state.history.commands.last() {
        Some(EditCommand::MultiPixelChange { changes, .. }) => {
            changes.iter().map(|c| (c.0, c.1)).collect()
        },
        other => panic!("unexpected command {:?}", other),
    }
}

#[test]
fn fill_covers_the_region_of_the_seed_and_nothing_else() {
    let mut state = walled_canvas();
    apply_fill(&mut state, 0, 0);
    for y in 0..5 {
        for x in 0..5 {
            let expected = if x < 2 {
                GREEN
            } else if x == 2 {
                Color::black()
            } else {
                Color::transparent()
            };
            assert_eq!(state.layers[0].get_pixel(x, y), expected);
        }
    }
    let mut positions = filled_positions(&state);
    assert_eq!(positions.len(), 10);
    positions.sort();
    positions.dedup();
    assert_eq!(positions.len(), 10);
    assert!(state.is_well_formed());
}

#[test]
fn fill_records_one_command_with_old_and_new_colours() {
    let mut state = walled_canvas();
    apply_fill(&mut state, 4, 4);
    assert_eq!(state.history.commands.len(), 1);
    assert_eq!(state.history.current_index, 1);
    match &state.history.commands[0] {
        EditCommand::MultiPixelChange { layer_index, changes } => {
            assert_eq!(*layer_index, 0);
            assert_eq!(changes.len(), 10);
            for change in changes.iter() {
                assert!(change.0 >= 3);
                assert_eq!(change.2, Color::transparent());
                assert_eq!(change.3, GREEN);
            }
        },
        other => panic!("unexpected command {:?}", other),
    }
    assert_eq!(state.used_colors.len(), 2);
}

#[test]
fn fill_goes_breadth_first_left_right_up_down() {
    let mut state = walled_canvas();
    apply_fill(&mut state, 0, 0);
    let positions = filled_positions(&state);
    assert_eq!(positions[..5], [(0, 0), (1, 0), (0, 1), (1, 1), (0, 2)]);
    let mut state = EditorState::new(3, 3);
    state.set_primary_color(GREEN);
    apply_fill(&mut state, 1, 1);
    assert_eq!(
        filled_positions(&state),
        vec![(1, 1), (0, 1), (2, 1), (1, 0), (1, 2), (0, 0), (0, 2), (2, 0), (2, 2)]
    );
}

#[test]
fn fill_with_the_colour_of_the_seed_does_nothing() {
    let mut state = walled_canvas();
    state.set_primary_color(Color::black());
    apply_fill(&mut state, 2, 2);
    assert_eq!(state.history.commands.len(), 0);
    state.set_primary_color(Color::transparent());
    apply_fill(&mut state, 0, 0);
    assert_eq!(state.history.commands.len(), 0);
}

#[test]
fn fill_of_a_single_pixel_region_records_a_multi_pixel_change() {
    let mut state = EditorState::new(3, 3);
    state.layers[0].set_pixel(1, 1, Color::white());
    state.set_primary_color(GREEN);
    apply_fill(&mut state, 1, 1);
    assert_eq!(
        state.history.commands,
        vec![EditCommand::MultiPixelChange {
            layer_index: 0,
            changes: vec![(1, 1, Color::white(), GREEN)],
        }]
    );
    assert_eq!(state.layers[0].get_pixel(0, 1), Color::transparent());
}

#[test]
fn fill_does_not_cross_diagonals() {
    let mut state = EditorState::new(3, 3);
    for (x, y) in [(1, 0), (0, 1), (2, 1), (1, 2)] {
        state.layers[0].set_pixel(x, y, Color::black());
    }
    state.set_primary_color(GREEN);
    apply_fill(&mut state, 1, 1);
    assert_eq!(filled_positions(&state), vec![(1, 1)]);
    assert_eq!(state.layers[0].get_pixel(0, 0), Color::transparent());
    assert_eq!(state.layers[0].get_pixel(2, 2), Color::transparent());
}

#[test]
fn fill_looks_at_the_active_layer_only() {
    let mut state = walled_canvas();
    state.add_layer("Top".to_string());
    apply_fill(&mut state, 0, 0);
    assert_eq!(filled_positions(&state).len(), 25);
    assert_eq!(state.layers[0].get_pixel(0, 0), Color::transparent());
    assert_eq!(state.layers[1].get_pixel(2, 2), GREEN);
}

#[test]
fn an_undone_fill_leaves_the_layer_as_it_was() {
    let mut state = walled_canvas();
    let before = state.layers[0].pixels.clone();
    apply_fill(&mut state, 0, 0);
    let after = state.layers[0].pixels.clone();
    state.undo();
    assert_eq!(state.layers[0].pixels, before);
    state.redo();
    assert_eq!(state.layers[0].pixels, after);
}

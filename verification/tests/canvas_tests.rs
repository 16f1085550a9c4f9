use pixel_editor::canvas::{
    subscription, CanvasEvent, CanvasProgram, EventStatus, Key, SHORTCUT_PASTE_AT,
};
use pixel_editor::message::Message;
use pixel_editor::selection::Selection;
use pixel_editor::state::{EditorState, Tool};

fn selecting_program() -> CanvasProgram {
    let mut state = EditorState::new(8, 8);
    state.current_tool = Tool::Selection;
    state.selection = Some(Selection { x: 1, y: 1, width: 0, height: 0 });
    state.is_selecting = true;
    CanvasProgram::new(state)
}

#[test]
fn events_outside_the_widget_are_ignored() {
    let program = CanvasProgram::new(EditorState::new(8, 8));
    assert_eq!(
        program.update(CanvasEvent::LeftPressed, false, Some((1, 1))),
        (EventStatus::Ignored, None)
    );
    assert_eq!(program.update(CanvasEvent::Keyboard, false, None), (EventStatus::Ignored, None));
}

#[test]
fn a_press_on_a_pixel_starts_a_drawing() {
    let program = CanvasProgram::new(EditorState::new(8, 8));
    assert_eq!(
        program.update(CanvasEvent::LeftPressed, true, Some((3, 4))),
        (EventStatus::Captured, Some(Message::DrawingStarted { x: 3, y: 4 }))
    );
    assert_eq!(program.update(CanvasEvent::LeftPressed, true, None), (EventStatus::Ignored, None));
}

#[test]
fn a_release_ends_the_drawing_or_the_selection() {
    let program = CanvasProgram::new(EditorState::new(8, 8));
    assert_eq!(
        program.update(CanvasEvent::LeftReleased, true, None),
        (EventStatus::Captured, Some(Message::DrawingEnded))
    );
    assert_eq!(
        selecting_program().update(CanvasEvent::LeftReleased, true, Some((2, 2))),
        (EventStatus::Captured, Some(Message::SelectionEnded))
    );
    let mut program = selecting_program();
    let mut state = program.state.clone();
    state.is_selecting = false;
    program.update_state(state);
    assert_eq!(
        program.update(CanvasEvent::LeftReleased, true, Some((2, 2))),
        (EventStatus::Captured, Some(Message::DrawingEnded))
    );
}

#[test]
fn a_move_draws_or_drags_the_selection() {
    let mut state = EditorState::new(8, 8);
    let idle = CanvasProgram::new(state.clone());
    assert_eq!(idle.update(CanvasEvent::CursorMoved, true, Some((1, 2))), (EventStatus::Ignored, None));
    state.is_drawing = true;
    let drawing = CanvasProgram::new(state);
    assert_eq!(
        drawing.update(CanvasEvent::CursorMoved, true, Some((1, 2))),
        (EventStatus::Captured, Some(Message::PixelDrawn { x: 1, y: 2 }))
    );
    assert_eq!(drawing.update(CanvasEvent::CursorMoved, true, None), (EventStatus::Ignored, None));
    assert_eq!(
        selecting_program().update(CanvasEvent::CursorMoved, true, Some((5, 6))),
        (EventStatus::Captured, Some(Message::SelectionUpdated { x: 5, y: 6 }))
    );
    assert_eq!(
        selecting_program().update(CanvasEvent::CursorMoved, true, Some((u32::MAX, 0))),
        (EventStatus::Captured, Some(Message::SelectionUpdated { x: i32::MAX, y: 0 }))
    );
}

#[test]
fn the_wheel_zooms() {
    let program = CanvasProgram::new(EditorState::new(8, 8));
    assert_eq!(
        program.update(CanvasEvent::WheelScrolled { direction: 1 }, true, None),
        (EventStatus::Captured, Some(Message::ZoomIn))
    );
    assert_eq!(
        program.update(CanvasEvent::WheelScrolled { direction: -1 }, true, None),
        (EventStatus::Captured, Some(Message::ZoomOut))
    );
    assert_eq!(
        program.update(CanvasEvent::WheelScrolled { direction: 0 }, true, None),
        (EventStatus::Ignored, None)
    );
}

#[test]
fn other_events_are_passed_on_or_ignored() {
    let program = CanvasProgram::new(EditorState::new(8, 8));
    assert_eq!(
        program.update(CanvasEvent::MiddlePressed, true, Some((2, 3))),
        (EventStatus::Captured, Some(Message::PanChanged { x: 2, y: 3 }))
    );
    assert_eq!(program.update(CanvasEvent::MiddlePressed, true, None), (EventStatus::Ignored, None));
    assert_eq!(program.update(CanvasEvent::OtherMouse, true, Some((2, 3))), (EventStatus::Ignored, None));
    assert_eq!(program.update(CanvasEvent::Touch, true, Some((2, 3))), (EventStatus::Ignored, None));
    assert_eq!(
        program.update(CanvasEvent::Keyboard, true, None),
        (EventStatus::Ignored, Some(Message::CanvasEvent))
    );
}

#[test]
fn a_program_looks_at_the_state_it_was_given() {
    let mut program = CanvasProgram::new(EditorState::new(8, 8));
    assert_eq!(program.state.canvas_width, 8);
    program.update_state(EditorState::new(3, 5));
    assert_eq!(program.state.canvas_width, 3);
    assert_eq!(program.state.canvas_height, 5);
}

#[test]
fn shortcuts_need_the_control_key_alone() {
    assert_eq!(subscription(Key::Character('z'), true), Some(Message::Undo));
    assert_eq!(subscription(Key::Character('Z'), true), Some(Message::Undo));
    assert_eq!(subscription(Key::Character('y'), true), Some(Message::Redo));
    assert_eq!(subscription(Key::Character('c'), true), Some(Message::CopySelection));
    assert_eq!(
        subscription(Key::Character('v'), true),
        Some(Message::PasteSelection { x: 16, y: 16 })
    );
    assert_eq!(SHORTCUT_PASTE_AT, 16);
    assert_eq!(subscription(Key::Character('X'), true), Some(Message::CutSelection));
    assert_eq!(
        subscription(Key::Character('a'), true),
        Some(Message::SelectionStarted { x: 0, y: 0 })
    );
    assert_eq!(subscription(Key::Character('q'), true), None);
    assert_eq!(subscription(Key::Character('z'), false), None);
    assert_eq!(subscription(Key::Other, true), None);
}

#[test]
fn delete_and_backspace_drop_the_selection() {
    assert_eq!(subscription(Key::Delete, false), Some(Message::SelectionCleared));
    assert_eq!(subscription(Key::Delete, true), Some(Message::SelectionCleared));
    assert_eq!(subscription(Key::Backspace, false), Some(Message::SelectionCleared));
}

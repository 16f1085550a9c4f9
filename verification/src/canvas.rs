//! From what happens on the canvas and the keyboard to messages.

use crate::message::Message;
use crate::state::{EditorState, EditorStateView, Tool};
use vstd::prelude::*;

verus! {

/// What can happen on the canvas, as far as the editor cares.
#[derive(Debug, Clone, Copy, PartialEq, Eq, Structural)]
pub enum CanvasEvent {
    LeftPressed,
    LeftReleased,
    CursorMoved,
    /// The wheel was turned; the direction is positive away from the
    /// user, negative towards the user and zero for a turn sideways.
    WheelScrolled { direction: i8 },
    MiddlePressed,
    OtherMouse,
    Touch,
    Keyboard,
}

/// Whether the canvas made use of an event.
#[derive(Debug, Clone, Copy, PartialEq, Eq, Structural)]
pub enum EventStatus {
    Ignored,
    Captured,
}

/// A key of the keyboard, as far as the editor's shortcuts care.
#[derive(Debug, Clone, Copy, PartialEq, Eq, Structural)]
pub enum Key {
    Character(char),
    Delete,
    Backspace,
    Other,
}

/// Where a paste by shortcut goes.
pub const SHORTCUT_PASTE_AT: u32 = 16;

/// A pixel coordinate as a coordinate of a selection.
pub open spec fn selection_coordinate(v: u32) -> i32 {
    if v <= i32::MAX {
        v as i32
    } else {
        i32::MAX
    }
}

/// Whether the selection tool is dragging a selection.
pub open spec fn selection_under_way(state: EditorStateView) -> bool {
    state.current_tool == Tool::Selection && state.selection is Some && state.is_selecting
}

/// The status and the message for an event on the canvas. Nothing comes of
/// an event while the cursor is outside the canvas widget. `pixel` is the
/// pixel under the cursor, if there is one.
pub open spec fn canvas_message(
    state: EditorStateView,
    event: CanvasEvent,
    cursor_inside: bool,
    pixel: Option<(u32, u32)>,
) -> (EventStatus, Option<Message>) {
    if !cursor_inside {
        (EventStatus::Ignored, None)
    } else {
        match event {
            CanvasEvent::LeftPressed => match pixel {
                Some((x, y)) => (EventStatus::Captured, Some(Message::DrawingStarted { x, y })),
                None => (EventStatus::Ignored, None),
            },
            CanvasEvent::LeftReleased => if selection_under_way(state) {
                (EventStatus::Captured, Some(Message::SelectionEnded))
            } else {
                (EventStatus::Captured, Some(Message::DrawingEnded))
            },
            CanvasEvent::CursorMoved => match pixel {
                Some((x, y)) => if state.is_drawing {
                    (EventStatus::Captured, Some(Message::PixelDrawn { x, y }))
                } else if selection_under_way(state) {
                    (
                        EventStatus::Captured,
                        Some(
                            Message::SelectionUpdated {
                                x: selection_coordinate(x),
                                y: selection_coordinate(y),
                            },
                        ),
                    )
                } else {
                    (EventStatus::Ignored, None)
                },
                None => (EventStatus::Ignored, None),
            },
            CanvasEvent::WheelScrolled { direction } => if direction > 0 {
                (EventStatus::Captured, Some(Message::ZoomIn))
            } else if direction < 0 {
                (EventStatus::Captured, Some(Message::ZoomOut))
            } else {
                (EventStatus::Ignored, None)
            },
            CanvasEvent::MiddlePressed => match pixel {
                Some((x, y)) => (EventStatus::Captured, Some(Message::PanChanged { x, y })),
                None => (EventStatus::Ignored, None),
            },
            CanvasEvent::OtherMouse => (EventStatus::Ignored, None),
            CanvasEvent::Touch => (EventStatus::Ignored, None),
            CanvasEvent::Keyboard => (EventStatus::Ignored, Some(Message::CanvasEvent)),
        }
    }
}

/// The message for a key: with the control key and no other modifier, `z`
/// undoes, `y` redoes, `c` copies, `v` pastes, `x` cuts and `a` begins a
/// selection at the origin, in either case of the letter; delete and
/// backspace drop the selection whatever the modifiers.
pub open spec fn shortcut_message(key: Key, control_only: bool) -> Option<Message> {
    match key {
        Key::Character(c) => if !control_only {
            None
        } else if c == 'z' || c == 'Z' {
            Some(Message::Undo)
        } else if c == 'y' || c == 'Y' {
            Some(Message::Redo)
        } else if c == 'c' || c == 'C' {
            Some(Message::CopySelection)
        } else if c == 'v' || c == 'V' {
            Some(Message::PasteSelection { x: SHORTCUT_PASTE_AT, y: SHORTCUT_PASTE_AT })
        } else if c == 'x' || c == 'X' {
            Some(Message::CutSelection)
        } else if c == 'a' || c == 'A' {
            Some(Message::SelectionStarted { x: 0, y: 0 })
        } else {
            None
        },
        Key::Delete => Some(Message::SelectionCleared),
        Key::Backspace => Some(Message::SelectionCleared),
        Key::Other => None,
    }
}

/// The message for a key; see `shortcut_message`.
pub fn subscription(key: Key, control_only: bool) -> (message: Option<Message>)
    ensures
        message == shortcut_message(key, control_only),
{
    match key {
        Key::Character(c) => {
            if !control_only {
                None
            } else if c == 'z' || c == 'Z' {
                Some(Message::Undo)
            } else if c == 'y' || c == 'Y' {
                Some(Message::Redo)
            } else if c == 'c' || c == 'C' {
                Some(Message::CopySelection)
            } else if c == 'v' || c == 'V' {
                Some(Message::PasteSelection { x: SHORTCUT_PASTE_AT, y: SHORTCUT_PASTE_AT })
            } else if c == 'x' || c == 'X' {
                Some(Message::CutSelection)
            } else if c == 'a' || c == 'A' {
                Some(Message::SelectionStarted { x: 0, y: 0 })
            } else {
                None
            }
        },
        Key::Delete => Some(Message::SelectionCleared),
        Key::Backspace => Some(Message::SelectionCleared),
        Key::Other => None,
    }
}

/// The canvas widget's share of the editor: it looks at a copy of the state
/// and turns what happens on the canvas into messages.
#[derive(Debug)]
pub struct CanvasProgram {
    pub state: EditorState,
}

impl CanvasProgram {
    /// A program that looks at the given state.
    pub fn new(state: EditorState) -> (program: CanvasProgram)
        ensures
            program.state == state,
    {
        CanvasProgram { state }
    }

    /// Gives the program a newer state to look at.
    pub fn update_state(&mut self, state: EditorState)
        ensures
            final(self).state == state,
    {
        self.state = state;
    }

    /// The status and the message for an event on the canvas; see
    /// `canvas_message`.
    pub fn update(&self, event: CanvasEvent, cursor_inside: bool, pixel: Option<(u32, u32)>) -> (result:
        (EventStatus, Option<Message>))
        ensures
            result == canvas_message(self.state@, event, cursor_inside, pixel),
    {
        if !cursor_inside {
            return (EventStatus::Ignored, None);
        }
        let selecting = matches!(self.state.current_tool, Tool::Selection)
            && self.state.selection.is_some() && self.state.is_selecting;
        match event {
            CanvasEvent::LeftPressed => match pixel {
                Some((x, y)) => (EventStatus::Captured, Some(Message::DrawingStarted { x, y })),
                None => (EventStatus::Ignored, None),
            },
            CanvasEvent::LeftReleased => {
                if selecting {
                    (EventStatus::Captured, Some(Message::SelectionEnded))
                } else {
                    (EventStatus::Captured, Some(Message::DrawingEnded))
                }
            },
            CanvasEvent::CursorMoved => match pixel {
                Some((x, y)) => {
                    if self.state.is_drawing {
                        (EventStatus::Captured, Some(Message::PixelDrawn { x, y }))
                    } else if selecting {
                        (
                            EventStatus::Captured,
                            Some(
                                Message::SelectionUpdated {
                                    x: to_selection_coordinate(x),
                                    y: to_selection_coordinate(y),
                                },
                            ),
                        )
                    } else {
                        (EventStatus::Ignored, None)
                    }
                },
                None => (EventStatus::Ignored, None),
            },
            CanvasEvent::WheelScrolled { direction } => {
                if direction > 0 {
                    (EventStatus::Captured, Some(Message::ZoomIn))
                } else if direction < 0 {
                    (EventStatus::Captured, Some(Message::ZoomOut))
                } else {
                    (EventStatus::Ignored, None)
                }
            },
            CanvasEvent::MiddlePressed => match pixel {
                Some((x, y)) => (EventStatus::Captured, Some(Message::PanChanged { x, y })),
                None => (EventStatus::Ignored, None),
            },
            CanvasEvent::OtherMouse => (EventStatus::Ignored, None),
            CanvasEvent::Touch => (EventStatus::Ignored, None),
            CanvasEvent::Keyboard => (EventStatus::Ignored, Some(Message::CanvasEvent)),
        }
    }
}

/// A pixel coordinate as a coordinate of a selection.
fn to_selection_coordinate(v: u32) -> (c: i32)
    ensures
        c == selection_coordinate(v),
{
    if v <= 0x7fff_ffff {
        v as i32
    } else {
        0x7fff_ffff
    }
}

} // verus!

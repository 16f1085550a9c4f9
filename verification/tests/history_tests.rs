use pixel_editor::color::Color;
use pixel_editor::history::{copy_changes, EditCommand, History, HISTORY_LIMIT};

fn change(n: u32) -> EditCommand {
    EditCommand::PixelChange {
        layer_index: 0,
        x: n,
        y: 0,
        old_color: Color::transparent(),
        new_color: Color::black(),
    }
}

#[test]
fn a_new_history_is_empty() {
    let mut history = History::new();
    assert_eq!(history.commands.len(), 0);
    assert_eq!(history.current_index, 0);
    assert!(!history.can_undo());
    assert!(!history.can_redo());
    assert_eq!(history.undo(), None);
    assert_eq!(history.redo(), None);
}

#[test]
fn push_appends_and_moves_the_cursor() {
    let mut history = History::new();
    history.push(change(1));
    history.push(change(2));
    assert_eq!(history.commands.len(), 2);
    assert_eq!(history.current_index, 2);
    assert!(history.can_undo());
    assert!(!history.can_redo());
}

#[test]
fn undo_and_redo_walk_the_commands() {
    let mut history = History::new();
    history.push(change(1));
    history.push(change(2));
    assert_eq!(history.undo(), Some(change(2)));
    assert_eq!(history.current_index, 1);
    assert!(history.can_redo());
    assert_eq!(history.undo(), Some(change(1)));
    assert_eq!(history.undo(), None);
    assert_eq!(history.current_index, 0);
    assert_eq!(history.redo(), Some(change(1)));
    assert_eq!(history.redo(), Some(change(2)));
    assert_eq!(history.redo(), None);
    assert_eq!(history.current_index, 2);
    assert_eq!(history.commands.len(), 2);
}

#[test]
fn push_after_undo_discards_the_redo_tail() {
    let mut history = History::new();
    history.push(change(1));
    history.push(change(2));
    history.push(change(3));
    history.undo();
    history.undo();
    history.push(change(9));
    assert_eq!(history.redo(), None);
    assert_eq!(history.commands, vec![change(1), change(9)]);
    assert_eq!(history.current_index, 2);
    assert_eq!(history.undo(), Some(change(9)));
}

#[test]
fn the_history_keeps_a_hundred_commands() {
    assert_eq!(HISTORY_LIMIT, 100);
    let mut history = History::new();
    for n in 0..101 {
        history.push(change(n));
    }
    assert_eq!(history.commands.len(), 100);
    assert_eq!(history.current_index, 100);
    assert_eq!(history.commands[0], change(1));
    assert_eq!(history.commands[99], change(100));
    let mut undone = 0;
    let mut last = None;
    while let Some(command) = history.undo() {
        undone += 1;
        last = Some(command);
    }
    assert_eq!(undone, 100);
    assert_eq!(last, Some(change(1)));
    assert!(!history.can_undo());
}

#[test]
fn a_full_history_keeps_its_place_after_an_undo() {
    let mut history = History::new();
    for n in 0..100 {
        history.push(change(n));
    }
    history.undo();
    history.push(change(500));
    assert_eq!(history.commands.len(), 100);
    assert_eq!(history.current_index, 100);
    assert_eq!(history.commands[0], change(0));
    assert_eq!(history.commands[99], change(500));
}

#[test]
fn cloning_a_command_keeps_its_changes() {
    let multi = EditCommand::MultiPixelChange {
        layer_index: 3,
        changes: vec![
            (1, 2, Color::transparent(), Color::white()),
            (3, 4, Color::black(), Color::white()),
        ],
    };
    assert_eq!(multi.clone(), multi);
    assert_eq!(change(7).clone(), change(7));
    let changes = vec![(1, 2, Color::transparent(), Color::white())];
    assert_eq!(copy_changes(&changes), changes);
    assert_eq!(copy_changes(&Vec::new()), Vec::new());
}

#[test]
fn cloning_a_history_keeps_commands_and_cursor() {
    let mut history = History::new();
    history.push(change(1));
    history.push(change(2));
    history.undo();
    let copy = history.clone();
    assert_eq!(copy.commands, history.commands);
    assert_eq!(copy.current_index, 1);
}

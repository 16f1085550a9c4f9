//! Reversible edit commands and the bounded, linear undo/redo history that
//! stores them.

use crate::color::Color;
use vstd::prelude::*;

verus! {

/// The most commands that a history keeps; pushing one more evicts the oldest.
pub const HISTORY_LIMIT: usize = 100;

/// One reversible edit of a layer's pixels. Every change holds a position,
/// the colour that was there and the colour that replaced it.
#[derive(Debug, PartialEq, Eq)]
pub enum EditCommand {
    PixelChange { layer_index: usize, x: u32, y: u32, old_color: Color, new_color: Color },
    MultiPixelChange { layer_index: usize, changes: Vec<(u32, u32, Color, Color)> },
}

/// The mathematical content of an `EditCommand`.
pub enum EditCommandView {
    PixelChange { layer_index: usize, x: u32, y: u32, old_color: Color, new_color: Color },
    MultiPixelChange { layer_index: usize, changes: Seq<(u32, u32, Color, Color)> },
}

impl View for EditCommand {
    type V = EditCommandView;

    open spec fn view(&self) -> EditCommandView {
        match *self {
            EditCommand::PixelChange {
                layer_index,
                x,
                y,
                old_color,
                new_color,
            } => EditCommandView::PixelChange { layer_index, x, y, old_color, new_color },
            EditCommand::MultiPixelChange {
                layer_index,
                changes,
            } => EditCommandView::MultiPixelChange { layer_index, changes: changes@ },
        }
    }
}

impl EditCommandView {
    /// The layer that the command edited.
    pub open spec fn layer_index(self) -> usize {
        match self {
            EditCommandView::PixelChange { layer_index, .. } => layer_index,
            EditCommandView::MultiPixelChange { layer_index, .. } => layer_index,
        }
    }

    /// The command's changes in the order in which they were made.
    pub open spec fn changes(self) -> Seq<(u32, u32, Color, Color)> {
        match self {
            EditCommandView::PixelChange { x, y, old_color, new_color, .. } => seq![
                (x, y, old_color, new_color),
            ],
            EditCommandView::MultiPixelChange { changes, .. } => changes,
        }
    }

    /// The command that records the given changes of one layer: a
    /// `PixelChange` for a single change, a `MultiPixelChange` otherwise.
    pub open spec fn record(layer_index: usize, changes: Seq<(u32, u32, Color, Color)>) -> Self {
        if changes.len() == 1 {
            EditCommandView::PixelChange {
                layer_index,
                x: changes[0].0,
                y: changes[0].1,
                old_color: changes[0].2,
                new_color: changes[0].3,
            }
        } else {
            EditCommandView::MultiPixelChange { layer_index, changes }
        }
    }
}

/// A copy of a list of changes.
pub fn copy_changes(changes: &Vec<(u32, u32, Color, Color)>) -> (copy: Vec<
    (u32, u32, Color, Color),
>)
    ensures
        copy@ == changes@,
{
    let mut copy: Vec<(u32, u32, Color, Color)> = Vec::new();
    let mut i: usize = 0;
    while i < changes.len()
        invariant
            i <= changes.len(),
            copy@ == changes@.take(i as int),
        decreases changes.len() - i,
    {
        copy.push(changes[i]);
        i += 1;
        assert(copy@ =~= changes@.take(i as int));
    }
    assert(changes@.take(changes.len() as int) =~= changes@);
    copy
}

impl Clone for EditCommand {
    fn clone(&self) -> (copy: EditCommand)
        ensures
            copy@ == self@,
    {
        match self {
            EditCommand::PixelChange {
                layer_index,
                x,
                y,
                old_color,
                new_color,
            } => EditCommand::PixelChange {
                layer_index: *layer_index,
                x: *x,
                y: *y,
                old_color: *old_color,
                new_color: *new_color,
            },
            EditCommand::MultiPixelChange {
                layer_index,
                changes,
            } => EditCommand::MultiPixelChange {
                layer_index: *layer_index,
                changes: copy_changes(changes),
            },
        }
    }
}

/// The commands of a history, oldest first, and a cursor into them. The
/// commands before the cursor can be undone, those from the cursor on redone.
#[derive(Debug)]
pub struct History {
    pub commands: Vec<EditCommand>,
    pub current_index: usize,
}

/// The mathematical content of a `History`.
pub struct HistoryView {
    pub commands: Seq<EditCommandView>,
    pub current_index: usize,
}

/// The views of a sequence of commands.
pub open spec fn command_views(commands: Seq<EditCommand>) -> Seq<EditCommandView> {
    Seq::new(commands.len(), |i: int| commands[i]@)
}

impl View for History {
    type V = HistoryView;

    open spec fn view(&self) -> HistoryView {
        HistoryView {
            commands: command_views(self.commands@),
            current_index: self.current_index,
        }
    }
}

impl HistoryView {
    /// The cursor lies within the commands, and there are no more of them
    /// than the limit.
    pub open spec fn wf(self) -> bool {
        self.current_index <= self.commands.len() <= HISTORY_LIMIT
    }

    /// The empty history.
    pub open spec fn empty() -> HistoryView {
        HistoryView { commands: Seq::empty(), current_index: 0 }
    }

    /// The history after a new command: what could have been redone is
    /// dropped, the command goes to the end with the cursor behind it, and
    /// where that makes more commands than the limit, the oldest leaves.
    pub open spec fn push(self, command: EditCommandView) -> HistoryView {
        let kept = self.commands.take(self.current_index as int).push(command);
        if kept.len() > HISTORY_LIMIT {
            HistoryView { commands: kept.skip(1), current_index: self.current_index }
        } else {
            HistoryView { commands: kept, current_index: (self.current_index + 1) as usize }
        }
    }

    /// Whether there is a command to undo.
    pub open spec fn can_undo(self) -> bool {
        self.current_index > 0
    }

    /// Whether there is a command to redo.
    pub open spec fn can_redo(self) -> bool {
        self.current_index < self.commands.len()
    }

    /// The command that an undo hands out, if there is one.
    pub open spec fn undo_command(self) -> Option<EditCommandView> {
        if self.can_undo() {
            Some(self.commands[self.current_index - 1])
        } else {
            None
        }
    }

    /// The history after an undo: the cursor one command back.
    pub open spec fn undone(self) -> HistoryView {
        if self.can_undo() {
            HistoryView { current_index: (self.current_index - 1) as usize, ..self }
        } else {
            self
        }
    }

    /// The command that a redo hands out, if there is one.
    pub open spec fn redo_command(self) -> Option<EditCommandView> {
        if self.can_redo() {
            Some(self.commands[self.current_index as int])
        } else {
            None
        }
    }

    /// The history after a redo: the cursor one command on.
    pub open spec fn redone(self) -> HistoryView {
        if self.can_redo() {
            HistoryView { current_index: (self.current_index + 1) as usize, ..self }
        } else {
            self
        }
    }

    /// The history after pushing several commands, first to last.
    pub open spec fn push_all(self, commands: Seq<EditCommandView>) -> HistoryView
        decreases commands.len(),
    {
        if commands.len() == 0 {
            self
        } else {
            self.push_all(commands.drop_last()).push(commands.last())
        }
    }

    /// The commands that can be undone, oldest first.
    pub open spec fn past(self) -> Seq<EditCommandView> {
        self.commands.take(self.current_index as int)
    }

    /// A push keeps the history well formed and leaves nothing to redo: the
    /// commands are the former past with the new command behind it, less
    /// the oldest where the limit was reached, and the cursor is at the end.
    pub proof fn lemma_push(self, command: EditCommandView)
        requires
            self.wf(),
        ensures
            self.push(command).wf(),
            !self.push(command).can_redo(),
            self.push(command).redo_command() is None,
            self.push(command).undo_command() == Some(command),
            self.push(command).commands == self.push(command).past(),
            self.push(command).past() == if self.current_index == HISTORY_LIMIT {
                self.past().skip(1).push(command)
            } else {
                self.past().push(command)
            },
    {
        let next = self.push(command);
        assert(next.past() =~= next.commands);
        if self.current_index == HISTORY_LIMIT {
            assert(next.commands =~= self.past().skip(1).push(command));
        }
    }

    /// Whatever was undone before it, a push leaves nothing to redo.
    pub proof fn lemma_push_after_undo_discards_redo(self, command: EditCommandView)
        requires
            self.wf(),
        ensures
            self.undone().push(command).redo_command() is None,
            self.undone().push(command).redone() == self.undone().push(command),
    {
        self.undone().lemma_push(command);
    }

    /// Pushing keeps only the most recent commands: after pushing a number
    /// of commands, the past is what was the past followed by the new
    /// commands, cut down from the front to the limit.
    pub proof fn lemma_push_all(self, commands: Seq<EditCommandView>)
        requires
            self.wf(),
        ensures
            self.push_all(commands).wf(),
            commands.len() > 0 ==> self.push_all(commands).commands == self.push_all(
                commands,
            ).past(),
            self.push_all(commands).past() == most_recent(
                self.past() + commands,
                HISTORY_LIMIT as int,
            ),
        decreases commands.len(),
    {
        if commands.len() == 0 {
            assert(self.past() + commands =~= self.past());
            assert(self.past().skip(0) =~= self.past());
        } else {
            let before = self.push_all(commands.drop_last());
            self.lemma_push_all(commands.drop_last());
            before.lemma_push(commands.last());
            let all_before = self.past() + commands.drop_last();
            let all = self.past() + commands;
            assert(all =~= all_before.push(commands.last()));
            assert(before.push(commands.last()).past() =~= most_recent(
                all,
                HISTORY_LIMIT as int,
            ));
        }
    }

    /// A history that took in more commands than the limit holds exactly
    /// the limit's worth of them, the most recent ones, with the cursor at
    /// the end: the older ones are out of reach of undo.
    pub proof fn lemma_history_bound(self, commands: Seq<EditCommandView>)
        requires
            self.wf(),
            commands.len() >= HISTORY_LIMIT,
        ensures
            self.push_all(commands).commands == commands.skip(commands.len() - HISTORY_LIMIT),
            self.push_all(commands).commands.len() == HISTORY_LIMIT,
            self.push_all(commands).current_index == HISTORY_LIMIT,
    {
        self.lemma_push_all(commands);
        let all = self.past() + commands;
        assert(all.skip(all.len() - HISTORY_LIMIT) =~= commands.skip(
            commands.len() - HISTORY_LIMIT,
        ));
    }
}

/// The last `limit` elements of a sequence; all of it where it has no more.
pub open spec fn most_recent<T>(s: Seq<T>, limit: int) -> Seq<T> {
    if s.len() > limit {
        s.skip(s.len() - limit)
    } else {
        s
    }
}

impl Clone for History {
    fn clone(&self) -> (copy: History)
        ensures
            copy@ == self@,
    {
        let mut commands: Vec<EditCommand> = Vec::new();
        let mut i: usize = 0;
        while i < self.commands.len()
            invariant
                i <= self.commands.len(),
                commands.len() == i,
                forall|k: int| 0 <= k < i ==> (#[trigger] commands@[k])@ == self.commands@[k]@,
            decreases self.commands.len() - i,
        {
            commands.push(self.commands[i].clone());
            i += 1;
        }
        let copy = History { commands, current_index: self.current_index };
        assert(copy@.commands =~= self@.commands);
        copy
    }
}

impl History {
    /// Whether the cursor lies within the commands and the commands within
    /// the limit.
    pub open spec fn wf(&self) -> bool {
        self@.wf()
    }

    /// An empty history.
    pub fn new() -> (history: History)
        ensures
            history@ == HistoryView::empty(),
            history.wf(),
    {
        let history = History { commands: Vec::new(), current_index: 0 };
        assert(history@.commands =~= Seq::empty());
        history
    }

    /// Records a new command. What could have been redone is discarded;
    /// beyond the limit the oldest command is evicted.
    pub fn push(&mut self, command: EditCommand)
        requires
            old(self).wf(),
        ensures
            final(self)@ == old(self)@.push(command@),
            final(self).wf(),
    {
        self.commands.truncate(self.current_index);
        self.commands.push(command);
        self.current_index += 1;
        if self.commands.len() > HISTORY_LIMIT {
            let _ = self.commands.remove(0);
            self.current_index -= 1;
        }
        proof {
            old(self)@.lemma_push(command@);
            assert(self@.commands =~= old(self)@.push(command@).commands);
        }
    }

    /// Whether there is a command to undo.
    pub fn can_undo(&self) -> (can: bool)
        ensures
            can == self@.can_undo(),
    {
        self.current_index > 0
    }

    /// Whether there is a command to redo.
    pub fn can_redo(&self) -> (can: bool)
        ensures
            can == self@.can_redo(),
    {
        self.current_index < self.commands.len()
    }

    /// Steps the cursor back and hands out the command to reverse; `None`
    /// where nothing is left to undo.
    pub fn undo(&mut self) -> (command: Option<EditCommand>)
        requires
            old(self).wf(),
        ensures
            final(self)@ == old(self)@.undone(),
            final(self).wf(),
            command is Some == old(self)@.can_undo(),
            command matches Some(c) ==> Some(c@) == old(self)@.undo_command(),
    {
        if self.can_undo() {
            self.current_index -= 1;
            Some(self.commands[self.current_index].clone())
        } else {
            None
        }
    }

    /// Hands out the command to apply again and steps the cursor on; `None`
    /// where nothing is left to redo.
    pub fn redo(&mut self) -> (command: Option<EditCommand>)
        requires
            old(self).wf(),
        ensures
            final(self)@ == old(self)@.redone(),
            final(self).wf(),
            command is Some == old(self)@.can_redo(),
            command matches Some(c) ==> Some(c@) == old(self)@.redo_command(),
    {
        if self.can_redo() {
            let command = self.commands[self.current_index].clone();
            self.current_index += 1;
            Some(command)
        } else {
            None
        }
    }
}

} // verus!

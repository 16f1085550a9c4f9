//! Applying recorded changes to a layer, forward for a redo and in reverse
//! for an undo.

use crate::color::Color;
use crate::history::{EditCommand, EditCommandView};
use crate::layer::{Layer, LayerView};
use crate::state::{layer_fits, EditorState, EditorStateView};
use vstd::prelude::*;

verus! {

/// The colour that a change leaves at its position: the new colour when it
/// is applied forward, the old one when it is reversed.
pub open spec fn change_color(change: (u32, u32, Color, Color), forward: bool) -> Color {
    if forward {
        change.3
    } else {
        change.2
    }
}

/// A layer after a list of changes was applied in order, each setting its
/// pixel to the new colour (forward) or to the old one (in reverse).
/// Changes at positions that the layer does not have are passed over.
pub open spec fn apply_changes(
    layer: LayerView,
    changes: Seq<(u32, u32, Color, Color)>,
    forward: bool,
) -> LayerView
    decreases changes.len(),
{
    if changes.len() == 0 {
        layer
    } else {
        let last = changes.last();
        apply_changes(layer, changes.drop_last(), forward).with_pixel(
            last.0 as int,
            last.1 as int,
            change_color(last, forward),
        )
    }
}

/// The positions of a list of changes.
pub open spec fn change_positions(changes: Seq<(u32, u32, Color, Color)>) -> Seq<(u32, u32)> {
    Seq::new(changes.len(), |i: int| (changes[i].0, changes[i].1))
}

/// Applying changes keeps a layer's dimensions, name, visibility and
/// opacity, and keeps it well formed.
pub proof fn lemma_apply_changes_frame(
    layer: LayerView,
    changes: Seq<(u32, u32, Color, Color)>,
    forward: bool,
)
    ensures
        apply_changes(layer, changes, forward).width == layer.width,
        apply_changes(layer, changes, forward).height == layer.height,
        apply_changes(layer, changes, forward).name == layer.name,
        apply_changes(layer, changes, forward).visible == layer.visible,
        apply_changes(layer, changes, forward).opacity == layer.opacity,
        apply_changes(layer, changes, forward).pixels.len() == layer.pixels.len(),
        layer.wf() ==> apply_changes(layer, changes, forward).wf(),
    decreases changes.len(),
{
    if changes.len() > 0 {
        lemma_apply_changes_frame(layer, changes.drop_last(), forward);
        let last = changes.last();
        apply_changes(layer, changes.drop_last(), forward).lemma_with_pixel(
            last.0 as int,
            last.1 as int,
            change_color(last, forward),
            0,
            0,
        );
    }
}

/// After changes at distinct positions were applied, every changed pixel
/// that the layer has shows its change's colour, and every other pixel is
/// as it was.
pub proof fn lemma_apply_changes_pixel(
    layer: LayerView,
    changes: Seq<(u32, u32, Color, Color)>,
    forward: bool,
    x: int,
    y: int,
)
    requires
        change_positions(changes).no_duplicates(),
    ensures
        forall|i: int|
            0 <= i < changes.len() && changes[i].0 == x && changes[i].1 == y && layer.holds(x, y)
                ==> apply_changes(layer, changes, forward).pixel(x, y) == change_color(
                #[trigger] changes[i],
                forward,
            ),
        (forall|i: int| 0 <= i < changes.len() ==> !((#[trigger] changes[i]).0 == x && changes[i].1
            == y)) ==> apply_changes(layer, changes, forward).pixel(x, y) == layer.pixel(x, y),
    decreases changes.len(),
{
    if changes.len() > 0 {
        let rest = changes.drop_last();
        let last = changes.last();
        let n = changes.len() - 1;
        assert(change_positions(rest) =~= change_positions(changes).drop_last());
        assert(change_positions(rest).no_duplicates()) by {
            assert forall|i: int, j: int|
                0 <= i < rest.len() && 0 <= j < rest.len() && i != j implies change_positions(
                rest,
            )[i] != change_positions(rest)[j] by {
                assert(change_positions(changes)[i] != change_positions(changes)[j]);
            }
        }
        lemma_apply_changes_pixel(layer, rest, forward, x, y);
        lemma_apply_changes_frame(layer, rest, forward);
        let before = apply_changes(layer, rest, forward);
        before.lemma_with_pixel(last.0 as int, last.1 as int, change_color(last, forward), x, y);
        before.lemma_with_pixel(last.0 as int, last.1 as int, change_color(last, forward), last.0 as int, last.1 as int);
        assert(before.holds(x, y) == layer.holds(x, y));
        assert forall|i: int|
            0 <= i < changes.len() && changes[i].0 == x && changes[i].1 == y && layer.holds(
                x,
                y,
            ) implies apply_changes(layer, changes, forward).pixel(x, y) == change_color(
            #[trigger] changes[i],
            forward,
        ) by {
            if i < n {
                assert(rest[i] == changes[i]);
                assert(change_positions(changes)[i] != change_positions(changes)[n]);
            }
        }
        if forall|i: int|
            0 <= i < changes.len() ==> !((#[trigger] changes[i]).0 == x && changes[i].1 == y) {
            assert(!(changes[n].0 == x && changes[n].1 == y));
            assert forall|i: int| 0 <= i < rest.len() implies !((#[trigger] rest[i]).0 == x
                && rest[i].1 == y) by {
                assert(rest[i] == changes[i]);
            }
        }
    }
}

impl EditorStateView {
    /// The state with a command's changes applied to the layer that the
    /// command names; the state itself where there is no such layer.
    pub open spec fn apply_command(self, command: EditCommandView, forward: bool) -> EditorStateView {
        if command.layer_index() < self.layers.len() {
            EditorStateView {
                layers: self.layers.update(
                    command.layer_index() as int,
                    apply_changes(
                        self.layers[command.layer_index() as int],
                        command.changes(),
                        forward,
                    ),
                ),
                ..self
            }
        } else {
            self
        }
    }

    /// The state after an undo: the history steps back, and the command it
    /// hands out is reversed on its layer.
    pub open spec fn undo(self) -> EditorStateView {
        match self.history.undo_command() {
            Some(command) => (EditorStateView {
                history: self.history.undone(),
                ..self
            }).apply_command(command, false),
            None => self,
        }
    }

    /// The state after a redo: the history steps on, and the command it
    /// hands out is applied again to its layer.
    pub open spec fn redo(self) -> EditorStateView {
        match self.history.redo_command() {
            Some(command) => (EditorStateView {
                history: self.history.redone(),
                ..self
            }).apply_command(command, true),
            None => self,
        }
    }
}

/// Applies a list of changes to a layer, in order.
fn apply_to_layer(layer: &mut Layer, changes: &Vec<(u32, u32, Color, Color)>, forward: bool)
    ensures
        final(layer)@ == apply_changes(old(layer)@, changes@, forward),
{
    let mut i: usize = 0;
    while i < changes.len()
        invariant
            i <= changes.len(),
            layer@ == apply_changes(old(layer)@, changes@.take(i as int), forward),
        decreases changes.len() - i,
    {
        let change = changes[i];
        let color = if forward {
            change.3
        } else {
            change.2
        };
        layer.set_pixel(change.0, change.1, color);
        proof {
            assert(changes@.take(i + 1).drop_last() =~= changes@.take(i as int));
            assert(changes@.take(i + 1).last() == change);
        }
        i += 1;
    }
    proof {
        assert(changes@.take(changes.len() as int) =~= changes@);
    }
}

/// Applies a command to the layer that it names, forward or in reverse.
fn apply_command(state: &mut EditorState, command: EditCommand, forward: bool)
    requires
        old(state).wf(),
    ensures
        final(state)@ == old(state)@.apply_command(command@, forward),
        final(state).wf(),
{
    match command {
        EditCommand::PixelChange { layer_index, x, y, old_color, new_color } => {
            if layer_index < state.layers.len() {
                let color = if forward {
                    new_color
                } else {
                    old_color
                };
                state.layers[layer_index].set_pixel(x, y, color);
                proof {
                    let changes = command@.changes();
                    assert(changes.drop_last() =~= Seq::<(u32, u32, Color, Color)>::empty());
                    reveal_with_fuel(apply_changes, 2);
                    lemma_command_applied(*old(state), *state, command@, forward);
                }
            }
        },
        EditCommand::MultiPixelChange { layer_index, changes } => {
            if layer_index < state.layers.len() {
                apply_to_layer(&mut state.layers[layer_index], &changes, forward);
                proof {
                    lemma_command_applied(*old(state), *state, command@, forward);
                }
            }
        },
    }
}

/// A state that differs from a well-formed one only in the layer that a
/// command names, which holds the command's changes, is the command
/// applied, and is well formed.
proof fn lemma_command_applied(
    before: EditorState,
    after: EditorState,
    command: EditCommandView,
    forward: bool,
)
    requires
        before.wf(),
        command.layer_index() < before.layers.len(),
        after.layers@.len() == before.layers@.len(),
        forall|i: int|
            0 <= i < before.layers@.len() && i != command.layer_index() ==> after.layers@[i]
                == before.layers@[i],
        after.layers@[command.layer_index() as int]@ == apply_changes(
            before.layers@[command.layer_index() as int]@,
            command.changes(),
            forward,
        ),
        after.canvas_width == before.canvas_width,
        after.canvas_height == before.canvas_height,
        after.current_tool == before.current_tool,
        after.primary_color == before.primary_color,
        after.secondary_color == before.secondary_color,
        after.brush_size == before.brush_size,
        after.zoom_level == before.zoom_level,
        after.grid_visible == before.grid_visible,
        after.active_layer_index == before.active_layer_index,
        after.history == before.history,
        after.selection == before.selection,
        after.clipboard == before.clipboard,
        after.is_drawing == before.is_drawing,
        after.last_pixel == before.last_pixel,
        after.selected_export_format == before.selected_export_format,
        after.is_selecting == before.is_selecting,
        after.mirror_horizontal == before.mirror_horizontal,
        after.mirror_vertical == before.mirror_vertical,
        after.used_colors == before.used_colors,
    ensures
        after@ == before@.apply_command(command, forward),
        after.wf(),
{
    let index = command.layer_index() as int;
    assert(after@.layers =~= before@.apply_command(command, forward).layers);
    lemma_apply_changes_frame(before@.layers[index], command.changes(), forward);
    assert forall|i: int| 0 <= i < after@.layers.len() implies layer_fits(
        #[trigger] after@.layers[i],
        after.canvas_width,
        after.canvas_height,
    ) by {
        assert(layer_fits(before@.layers[i], before.canvas_width, before.canvas_height));
    }
}

/// Reverses a command: every pixel it changed gets its old colour back.
pub fn apply_undo_command(state: &mut EditorState, command: EditCommand)
    requires
        old(state).wf(),
    ensures
        final(state)@ == old(state)@.apply_command(command@, false),
        final(state).wf(),
{
    apply_command(state, command, false)
}

/// Applies a command again: every pixel it changed gets its new colour.
pub fn apply_redo_command(state: &mut EditorState, command: EditCommand)
    requires
        old(state).wf(),
    ensures
        final(state)@ == old(state)@.apply_command(command@, true),
        final(state).wf(),
{
    apply_command(state, command, true)
}

impl EditorState {
    /// Undoes the last command, if there is one.
    pub fn undo(&mut self)
        requires
            old(self).wf(),
        ensures
            final(self)@ == old(self)@.undo(),
            final(self).wf(),
    {
        if let Some(command) = self.history.undo() {
            apply_undo_command(self, command);
        }
    }

    /// Redoes the command that was undone last, if there is one.
    pub fn redo(&mut self)
        requires
            old(self).wf(),
        ensures
            final(self)@ == old(self)@.redo(),
            final(self).wf(),
    {
        if let Some(command) = self.history.redo() {
            apply_redo_command(self, command);
        }
    }
}

} // verus!

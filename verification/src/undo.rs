//! Why undo and redo are exact: a command that records an edit takes the
//! layers back to where they were and forth again, and so does a history
//! of such commands.

use crate::color::Color;
use crate::commands::{
    apply_changes, change_color, change_positions, lemma_apply_changes_frame,
    lemma_apply_changes_pixel,
};
use crate::editor::lemma_add_used_wf;
use crate::history::{EditCommandView, HistoryView, HISTORY_LIMIT};
use crate::layer::{color_at, lemma_buffer_determined, LayerView};
use crate::positions::{lemma_sorted_positions_exist};
use crate::state::{layer_fits, EditorStateView};
use vstd::prelude::*;

verus! {

/// Two well-formed layers that agree in everything but their buffers, and
/// show the same colour at every position, are the same layer.
pub proof fn lemma_layers_equal(a: LayerView, b: LayerView)
    requires
        a.wf(),
        b.wf(),
        a.width == b.width,
        a.height == b.height,
        a.name == b.name,
        a.visible == b.visible,
        a.opacity == b.opacity,
        forall|x: int, y: int|
            0 <= x < a.width && 0 <= y < a.height ==> #[trigger] a.pixel(x, y) == b.pixel(x, y),
    ensures
        a == b,
{
    let f = |x: int, y: int| a.pixel(x, y);
    assert forall|x: int, y: int| 0 <= x < a.width && 0 <= y < a.height implies color_at(
        a.pixels,
        4 * (y * a.width + x),
    ) == #[trigger] f(x, y) by {
        a.lemma_holds(x, y);
    }
    assert forall|x: int, y: int| 0 <= x < a.width && 0 <= y < a.height implies color_at(
        b.pixels,
        4 * (y * a.width + x),
    ) == #[trigger] f(x, y) by {
        b.lemma_holds(x, y);
        assert(a.pixel(x, y) == b.pixel(x, y));
    }
    lemma_buffer_determined(a.pixels, a.width, a.height, f);
    lemma_buffer_determined(b.pixels, a.width, a.height, f);
}

/// Whether a list of changes tells the truth about a layer: no position
/// stands in it twice, and every change holds as its old colour what the
/// layer shows at its position.
pub open spec fn records_layer(changes: Seq<(u32, u32, Color, Color)>, layer: LayerView) -> bool {
    &&& change_positions(changes).no_duplicates()
    &&& forall|k: int|
        0 <= k < changes.len() ==> (#[trigger] changes[k]).2 == layer.pixel(
            changes[k].0 as int,
            changes[k].1 as int,
        )
}

/// Changes that tell the truth about a layer, applied to it and then
/// reversed, leave the layer as it was.
pub proof fn lemma_changes_revert(layer: LayerView, changes: Seq<(u32, u32, Color, Color)>)
    requires
        layer.wf(),
        records_layer(changes, layer),
    ensures
        apply_changes(apply_changes(layer, changes, true), changes, false) == layer,
{
    let forth = apply_changes(layer, changes, true);
    let back = apply_changes(forth, changes, false);
    lemma_apply_changes_frame(layer, changes, true);
    lemma_apply_changes_frame(forth, changes, false);
    assert forall|x: int, y: int| 0 <= x < back.width && 0 <= y < back.height implies #[trigger] back.pixel(
        x,
        y,
    ) == layer.pixel(x, y) by {
        lemma_apply_changes_pixel(layer, changes, true, x, y);
        lemma_apply_changes_pixel(forth, changes, false, x, y);
        layer.lemma_holds(x, y);
        forth.lemma_holds(x, y);
        if exists|i: int| 0 <= i < changes.len() && (#[trigger] changes[i]).0 == x && changes[i].1
            == y {
            let i = choose|i: int|
                0 <= i < changes.len() && (#[trigger] changes[i]).0 == x && changes[i].1 == y;
            assert(back.pixel(x, y) == change_color(changes[i], false));
        } else {
            assert(back.pixel(x, y) == forth.pixel(x, y));
            assert(forth.pixel(x, y) == layer.pixel(x, y));
        }
    }
    lemma_layers_equal(back, layer);
}

/// Whether a command records the edit that took the layers `before` to
/// the layers `after`: it names one of the layers, its changes tell the
/// truth about that layer, and `after` is `before` with the changes made.
pub open spec fn records_edit(
    command: EditCommandView,
    before: Seq<LayerView>,
    after: Seq<LayerView>,
) -> bool {
    &&& command.layer_index() < before.len()
    &&& before[command.layer_index() as int].wf()
    &&& records_layer(command.changes(), before[command.layer_index() as int])
    &&& after == before.update(
        command.layer_index() as int,
        apply_changes(before[command.layer_index() as int], command.changes(), true),
    )
}

/// A command that records an edit, reversed on the layers after the edit,
/// gives the layers before it; applied to the layers before, it gives the
/// layers after.
pub proof fn lemma_command_round_trip(
    state: EditorStateView,
    command: EditCommandView,
    before: Seq<LayerView>,
    after: Seq<LayerView>,
)
    requires
        records_edit(command, before, after),
    ensures
        (EditorStateView { layers: after, ..state }).apply_command(command, false)
            == (EditorStateView { layers: before, ..state }),
        (EditorStateView { layers: before, ..state }).apply_command(command, true)
            == (EditorStateView { layers: after, ..state }),
{
    let index = command.layer_index() as int;
    lemma_changes_revert(before[index], command.changes());
    assert(after.update(index, before[index]) =~= before);
}

/// The state after an undo was asked for a number of times.
pub open spec fn undo_times(state: EditorStateView, count: nat) -> EditorStateView
    decreases count,
{
    if count == 0 {
        state
    } else {
        undo_times(state, (count - 1) as nat).undo()
    }
}

/// The state after a redo was asked for a number of times.
pub open spec fn redo_times(state: EditorStateView, count: nat) -> EditorStateView
    decreases count,
{
    if count == 0 {
        state
    } else {
        redo_times(state, (count - 1) as nat).redo()
    }
}

/// The state after the pencil drew at a list of pixels, one stroke each.
pub open spec fn pencil_strokes(state: EditorStateView, strokes: Seq<(u32, u32)>) -> EditorStateView
    decreases strokes.len(),
{
    if strokes.len() == 0 {
        state
    } else {
        pencil_strokes(state, strokes.drop_last()).pencil(strokes.last().0, strokes.last().1)
    }
}

/// Whether the commands before a history's cursor end with the records of
/// a run of edits: `stages` holds the layers before the first of the
/// edits, after each of them, and last the layers after them all.
pub open spec fn trails(history: HistoryView, stages: Seq<Seq<LayerView>>) -> bool {
    &&& stages.len() >= 1
    &&& history.wf()
    &&& stages.len() - 1 <= history.current_index
    &&& forall|k: int|
        0 <= k < stages.len() - 1 ==> records_edit(
            #[trigger] history.commands[history.current_index - (stages.len() - 1) + k],
            stages[k],
            stages[k + 1],
        )
}

/// Undoing along a trail walks the stages backwards: after `count` undos
/// the layers are those of the stage that many edits earlier, the cursor
/// stands that many commands back, and nothing else has changed.
pub proof fn lemma_undo_along_trail(
    state: EditorStateView,
    stages: Seq<Seq<LayerView>>,
    count: nat,
)
    requires
        trails(state.history, stages),
        state.layers == stages.last(),
        count <= stages.len() - 1,
    ensures
        undo_times(state, count) == (EditorStateView {
            layers: stages[stages.len() - 1 - count],
            history: HistoryView {
                current_index: (state.history.current_index - count) as usize,
                ..state.history
            },
            ..state
        }),
    decreases count,
{
    if count > 0 {
        lemma_undo_along_trail(state, stages, (count - 1) as nat);
        let n = stages.len() - 1;
        let before = undo_times(state, (count - 1) as nat);
        let k = n - count;
        let command = state.history.commands[state.history.current_index - n + k];
        assert(before.history.undo_command() == Some(command));
        assert(records_edit(command, stages[k], stages[k + 1]));
        let stepped = EditorStateView { history: before.history.undone(), ..before };
        lemma_command_round_trip(stepped, command, stages[k], stages[k + 1]);
        assert(stepped == (EditorStateView { layers: stages[k + 1], ..stepped }));
    }
}

/// Redoing along a trail walks the stages forwards again.
pub proof fn lemma_redo_along_trail(
    state: EditorStateView,
    stages: Seq<Seq<LayerView>>,
    count: nat,
)
    requires
        stages.len() >= 1,
        state.history.commands.len() <= HISTORY_LIMIT,
        state.history.current_index + (stages.len() - 1) <= state.history.commands.len(),
        state.layers == stages[0],
        forall|k: int|
            0 <= k < stages.len() - 1 ==> records_edit(
                #[trigger] state.history.commands[state.history.current_index + k],
                stages[k],
                stages[k + 1],
            ),
        count <= stages.len() - 1,
    ensures
        redo_times(state, count) == (EditorStateView {
            layers: stages[count as int],
            history: HistoryView {
                current_index: (state.history.current_index + count) as usize,
                ..state.history
            },
            ..state
        }),
    decreases count,
{
    if count == 0 {
        assert(state.history == (HistoryView {
            current_index: state.history.current_index,
            ..state.history
        }));
    } else {
        lemma_redo_along_trail(state, stages, (count - 1) as nat);
        let before = redo_times(state, (count - 1) as nat);
        let k = count - 1;
        let command = state.history.commands[state.history.current_index + k];
        assert(before.history.redo_command() == Some(command));
        assert(records_edit(command, stages[k], stages[k + 1]));
        let stepped = EditorStateView { history: before.history.redone(), ..before };
        lemma_command_round_trip(stepped, command, stages[k], stages[k + 1]);
        assert(stepped == (EditorStateView { layers: stages[k], ..stepped }));
    }
}

/// A stroke on the canvas keeps the state well formed and leaves a command
/// at the end of the history that records what it did to the layers.
pub proof fn lemma_stamp_records(state: EditorStateView, x: u32, y: u32, color: Color)
    requires
        state.wf(),
        state.in_bounds(x as int, y as int),
    ensures
        state.stamp(x, y, color).wf(),
        state.stamp(x, y, color).history == state.history.push(
            EditCommandView::record(
                state.active_layer_index,
                state.stamp_changes(x, y, color),
            ),
        ),
        records_edit(
            EditCommandView::record(state.active_layer_index, state.stamp_changes(x, y, color)),
            state.layers,
            state.stamp(x, y, color).layers,
        ),
        state.stamp(x, y, color) == (EditorStateView {
            layers: state.stamp(x, y, color).layers,
            history: state.stamp(x, y, color).history,
            used_colors: state.stamp(x, y, color).used_colors,
            ..state
        }),
{
    let after = state.stamp(x, y, color);
    let changes = state.stamp_changes(x, y, color);
    let command = EditCommandView::record(state.active_layer_index, changes);
    let index = state.active_layer_index as int;
    lemma_sorted_positions_exist(state.stamp_set(x, y), false);
    assert(change_positions(changes) =~= state.stamp_positions(x, y));
    assert(command.changes() =~= changes);
    assert(layer_fits(state.layers[index], state.canvas_width, state.canvas_height));
    lemma_apply_changes_frame(state.active_layer(), changes, true);
    state.history.lemma_push(command);
    lemma_add_used_wf(state.used_colors, color);
    assert forall|i: int| 0 <= i < after.layers.len() implies layer_fits(
        #[trigger] after.layers[i],
        after.canvas_width,
        after.canvas_height,
    ) by {
        assert(layer_fits(state.layers[i], state.canvas_width, state.canvas_height));
    }
}

/// The layers at every stage of a run of pencil strokes.
pub open spec fn stroke_stages(state: EditorStateView, strokes: Seq<(u32, u32)>) -> Seq<
    Seq<LayerView>,
> {
    Seq::new(
        (strokes.len() + 1) as nat,
        |k: int| pencil_strokes(state, strokes.take(k)).layers,
    )
}

/// A run of at most a hundred strokes on the canvas leaves the state well
/// formed, with the cursor at the end of the history and the strokes'
/// records as the last commands before it.
pub proof fn lemma_strokes_trail(state: EditorStateView, strokes: Seq<(u32, u32)>)
    requires
        state.wf(),
        strokes.len() <= HISTORY_LIMIT,
        forall|i: int|
            0 <= i < strokes.len() ==> state.in_bounds(
                (#[trigger] strokes[i]).0 as int,
                strokes[i].1 as int,
            ),
    ensures
        pencil_strokes(state, strokes).wf(),
        pencil_strokes(state, strokes).canvas_width == state.canvas_width,
        pencil_strokes(state, strokes).canvas_height == state.canvas_height,
        trails(pencil_strokes(state, strokes).history, stroke_stages(state, strokes)),
        strokes.len() > 0 ==> pencil_strokes(state, strokes).history.current_index
            == pencil_strokes(state, strokes).history.commands.len(),
    decreases strokes.len(),
{
    let stages = stroke_stages(state, strokes);
    if strokes.len() == 0 {
    } else {
        let shorter = strokes.drop_last();
        let before = pencil_strokes(state, shorter);
        let after = pencil_strokes(state, strokes);
        let last = strokes.last();
        let n = strokes.len() as int;
        assert forall|i: int| 0 <= i < shorter.len() implies state.in_bounds(
            (#[trigger] shorter[i]).0 as int,
            shorter[i].1 as int,
        ) by {
            assert(shorter[i] == strokes[i]);
        }
        lemma_strokes_trail(state, shorter);
        lemma_stamp_records(before, last.0, last.1, before.primary_color);
        let earlier = stroke_stages(state, shorter);
        let command = EditCommandView::record(
            before.active_layer_index,
            before.stamp_changes(last.0, last.1, before.primary_color),
        );
        assert(strokes.take(n) =~= strokes);
        assert(strokes.take(n - 1) =~= shorter);
        assert(shorter.take(n - 1) =~= shorter);
        assert(stages =~= earlier.push(after.layers)) by {
            assert forall|k: int| 0 <= k < n implies #[trigger] stages[k] == earlier[k] by {
                assert(strokes.take(k) =~= shorter.take(k));
            }
        }
        assert(earlier.last() == before.layers);
        lemma_trail_extends(before.history, earlier, command, after.layers);
    }
}

/// A history that trails a run of edits, given the record of one more
/// edit, trails the longer run, as long as the run is no longer than the
/// history's limit.
pub proof fn lemma_trail_extends(
    history: HistoryView,
    stages: Seq<Seq<LayerView>>,
    command: EditCommandView,
    layers: Seq<LayerView>,
)
    requires
        trails(history, stages),
        stages.len() <= HISTORY_LIMIT,
        records_edit(command, stages.last(), layers),
    ensures
        trails(history.push(command), stages.push(layers)),
        history.push(command).current_index == history.push(command).commands.len(),
{
    let next = history.push(command);
    let longer = stages.push(layers);
    let n = stages.len() as int;
    history.lemma_push(command);
    let cursor = next.current_index as int;
    let old_cursor = history.current_index as int;
    assert forall|k: int| 0 <= k < n implies records_edit(
        #[trigger] next.commands[cursor - n + k],
        longer[k],
        longer[k + 1],
    ) by {
        if k == n - 1 {
            assert(next.commands[cursor - 1] == command);
        } else {
            assert(records_edit(
                history.commands[old_cursor - (n - 1) + k],
                stages[k],
                stages[k + 1],
            ));
            assert(next.commands[cursor - n + k] == history.commands[old_cursor - (n - 1) + k]);
        }
    }
}

/// Any run of at most a hundred pencil strokes on the canvas can be taken
/// back whole: as many undos as there were strokes restore the layers pixel
/// for pixel as they were before the first stroke, and as many redos then
/// restore them as they were after the last. A longer run cannot be taken
/// back whole, for the history keeps a hundred commands.
pub proof fn lemma_undo_redo_round_trip(state: EditorStateView, strokes: Seq<(u32, u32)>)
    requires
        state.wf(),
        strokes.len() <= HISTORY_LIMIT,
        forall|i: int|
            0 <= i < strokes.len() ==> state.in_bounds(
                (#[trigger] strokes[i]).0 as int,
                strokes[i].1 as int,
            ),
    ensures
        undo_times(pencil_strokes(state, strokes), strokes.len()).layers == state.layers,
        redo_times(
            undo_times(pencil_strokes(state, strokes), strokes.len()),
            strokes.len(),
        ).layers == pencil_strokes(state, strokes).layers,
{
    let after = pencil_strokes(state, strokes);
    let stages = stroke_stages(state, strokes);
    let n = strokes.len();
    lemma_strokes_trail(state, strokes);
    assert(strokes.take(n as int) =~= strokes);
    assert(strokes.take(0) =~= Seq::<(u32, u32)>::empty());
    assert(stages[n as int] == after.layers);
    assert(stages[0] == state.layers);
    assert(stages.last() == after.layers);
    lemma_undo_along_trail(after, stages, n);
    let undone = undo_times(after, n);
    assert forall|k: int| 0 <= k < stages.len() - 1 implies records_edit(
        #[trigger] undone.history.commands[undone.history.current_index + k],
        stages[k],
        stages[k + 1],
    ) by {
        assert(records_edit(
            after.history.commands[after.history.current_index - (stages.len() - 1) + k],
            stages[k],
            stages[k + 1],
        ));
    }
    lemma_redo_along_trail(undone, stages, n);
}

} // verus!

//! Copying the selection to the clipboard, cutting it out and pasting the
//! clipboard into the active layer.

use crate::color::Color;
use crate::commands::{
    apply_changes, change_positions, lemma_apply_changes_frame, lemma_apply_changes_pixel,
};
use crate::history::{EditCommand, EditCommandView};
use crate::layer::{buffer_len, color_at, lemma_buffer_determined, Layer};
use crate::positions::{
    ascending, lemma_ascending_distinct, lemma_sorted_positions, lists, position_key,
    sorted_positions,
};
use crate::selection::Selection;
use crate::state::{layer_fits, ClipboardData, ClipboardView, EditorState, EditorStateView};
use vstd::prelude::*;

verus! {

/// Whether a paste writes the canvas position `p`: the position lies in
/// the pasted rectangle and on the canvas, and the source holds the four
/// bytes of its pixel.
pub open spec fn in_paste(
    p: (u32, u32),
    source_len: int,
    start_x: u32,
    start_y: u32,
    width: u32,
    height: u32,
    canvas_width: u32,
    canvas_height: u32,
) -> bool {
    &&& start_x <= p.0 < start_x + width
    &&& start_y <= p.1 < start_y + height
    &&& p.0 < canvas_width
    &&& p.1 < canvas_height
    &&& 4 * ((p.1 - start_y) * width + (p.0 - start_x)) + 3 < source_len
}

/// The colour that a paste writes at the canvas position `p`.
pub open spec fn pasted_color(
    source: Seq<u8>,
    p: (u32, u32),
    start_x: u32,
    start_y: u32,
    width: u32,
) -> Color {
    color_at(source, 4 * ((p.1 - start_y) * width + (p.0 - start_x)))
}

impl EditorStateView {
    /// The state with changes made to the active layer and nothing else.
    pub open spec fn with_painted(self, changes: Seq<(u32, u32, Color, Color)>) -> EditorStateView {
        EditorStateView {
            layers: self.layers.update(
                self.active_layer_index as int,
                apply_changes(self.active_layer(), changes, true),
            ),
            ..self
        }
    }

    /// What a copy of a rectangle puts on the clipboard: the composited
    /// colours of the part of the rectangle that lies on the canvas. A
    /// rectangle that covers no pixel of the canvas yields nothing.
    pub open spec fn copy_of(self, selection: Selection) -> Option<ClipboardView> {
        if selection.covers_any(self.canvas_width, self.canvas_height) {
            let start_x = selection.start_x(self.canvas_width) as u32;
            let start_y = selection.start_y(self.canvas_height) as u32;
            let width = (selection.end_x(self.canvas_width) - start_x) as u32;
            let height = (selection.end_y(self.canvas_height) - start_y) as u32;
            Some(
                ClipboardView {
                    pixels: self.copied(start_x, start_y, width, height),
                    width,
                    height,
                },
            )
        } else {
            None
        }
    }

    /// The state after the selection was copied: the clipboard holds the
    /// copy, where there is a selection that covers any pixel; the canvas
    /// stays as it is.
    pub open spec fn copy_selection(self) -> EditorStateView {
        match self.selection {
            Some(selection) => match self.copy_of(selection) {
                Some(copy) => EditorStateView { clipboard: Some(copy), ..self },
                None => self,
            },
            None => self,
        }
    }

    /// The canvas positions that a paste writes.
    pub open spec fn paste_set(
        self,
        source_len: int,
        start_x: u32,
        start_y: u32,
        width: u32,
        height: u32,
    ) -> Set<(u32, u32)> {
        Set::new(
            |p: (u32, u32)|
                in_paste(
                    p,
                    source_len,
                    start_x,
                    start_y,
                    width,
                    height,
                    self.canvas_width,
                    self.canvas_height,
                ),
        )
    }

    /// The changes that a paste makes to the active layer, row by row: for
    /// every position written, what the layer showed there and the
    /// source's colour.
    pub open spec fn paste_changes(
        self,
        source: Seq<u8>,
        start_x: u32,
        start_y: u32,
        width: u32,
        height: u32,
    ) -> Seq<(u32, u32, Color, Color)> {
        let positions = sorted_positions(
            self.paste_set(source.len() as int, start_x, start_y, width, height),
            true,
        );
        Seq::new(
            positions.len(),
            |i: int|
                (
                    positions[i].0,
                    positions[i].1,
                    self.active_layer().pixel(positions[i].0 as int, positions[i].1 as int),
                    pasted_color(source, positions[i], start_x, start_y, width),
                ),
        )
    }

    /// The state after a buffer of `width` by `height` pixels was pasted
    /// with its top left corner at `(start_x, start_y)`: the active layer
    /// takes the source's pixels where they fall on the canvas, and the
    /// history records those changes as one command. A paste that writes no
    /// pixel changes nothing.
    pub open spec fn paste(
        self,
        source: Seq<u8>,
        start_x: u32,
        start_y: u32,
        width: u32,
        height: u32,
    ) -> EditorStateView {
        let changes = self.paste_changes(source, start_x, start_y, width, height);
        if changes.len() > 0 {
            EditorStateView {
                history: self.history.push(
                    EditCommandView::MultiPixelChange {
                        layer_index: self.active_layer_index,
                        changes,
                    },
                ),
                ..self.with_painted(changes)
            }
        } else {
            self
        }
    }

    /// The state after the clipboard was pasted at `(x, y)`; an empty
    /// clipboard changes nothing.
    pub open spec fn paste_selection(self, x: u32, y: u32) -> EditorStateView {
        match self.clipboard {
            Some(clipboard) => self.paste(clipboard.pixels, x, y, clipboard.width, clipboard.height),
            None => self,
        }
    }

    /// The state after the selection was cut: it is copied to the
    /// clipboard, and then its part on the canvas is made transparent black
    /// on the active layer, which the history records as one command.
    pub open spec fn cut_selection(self) -> EditorStateView {
        match self.selection {
            Some(selection) => match self.copy_of(selection) {
                Some(copy) => (EditorStateView { clipboard: Some(copy), ..self }).paste(
                    Seq::new(buffer_len(copy.width, copy.height) as nat, |i: int| 0u8),
                    selection.start_x(self.canvas_width) as u32,
                    selection.start_y(self.canvas_height) as u32,
                    copy.width,
                    copy.height,
                ),
                None => self,
            },
            None => self,
        }
    }
}

/// A rectangle within a canvas needs no larger a buffer than the canvas.
proof fn lemma_buffer_within(width: u32, height: u32, canvas_width: u32, canvas_height: u32)
    requires
        width <= canvas_width,
        height <= canvas_height,
    ensures
        buffer_len(width, height) <= buffer_len(canvas_width, canvas_height),
{
    assert(width * height * 4 <= canvas_width * canvas_height * 4) by (nonlinear_arith)
        requires
            0 <= width <= canvas_width,
            0 <= height <= canvas_height,
    ;
}

/// The composited colours of the part of a rectangle that lies on the
/// canvas, four bytes per pixel and row by row; `None` for a rectangle that
/// covers no pixel of the canvas.
pub fn get_selection_pixels(state: &EditorState, selection: Selection) -> (pixels: Option<Vec<u8>>)
    requires
        state.wf(),
    ensures
        pixels is Some == state@.copy_of(selection) is Some,
        pixels matches Some(p) ==> p@ == state@.copy_of(selection)->0.pixels,
{
    let (start_x, start_y, end_x, end_y) = selection.clamped(
        state.canvas_width,
        state.canvas_height,
    );
    if start_x >= end_x || start_y >= end_y {
        return None;
    }
    let width = end_x - start_x;
    let height = end_y - start_y;
    proof {
        lemma_buffer_within(width, height, state.canvas_width, state.canvas_height);
        assert(layer_fits(state@.layers[0], state.canvas_width, state.canvas_height));
        assert(state.layers@[0].pixels.len() == buffer_len(
            state.canvas_width,
            state.canvas_height,
        ));
    }
    let mut copy = Layer::new(String::new(), width, height);
    let ghost view = state@;
    let ghost f = |dx: int, dy: int| view.composite(start_x + dx, start_y + dy);
    let mut y: u32 = start_y;
    while y < end_y
        invariant
            start_y <= y <= end_y,
            start_x < end_x <= state.canvas_width,
            end_y <= state.canvas_height,
            width == end_x - start_x,
            height == end_y - start_y,
            state.wf(),
            view == state@,
            f == (|dx: int, dy: int| view.composite(start_x + dx, start_y + dy)),
            copy.wf(),
            copy.width == width,
            copy.height == height,
            forall|dx: int, dy: int|
                0 <= dx < width && 0 <= dy < y - start_y ==> copy@.pixel(dx, dy) == #[trigger] f(
                    dx,
                    dy,
                ),
        decreases end_y - y,
    {
        let mut x: u32 = start_x;
        while x < end_x
            invariant
                start_x <= x <= end_x,
                start_y <= y < end_y,
                end_x <= state.canvas_width,
                end_y <= state.canvas_height,
                width == end_x - start_x,
                height == end_y - start_y,
                state.wf(),
                view == state@,
                f == (|dx: int, dy: int| view.composite(start_x + dx, start_y + dy)),
                copy.wf(),
                copy.width == width,
                copy.height == height,
                forall|dx: int, dy: int|
                    0 <= dx < width && (0 <= dy < y - start_y || (dy == y - start_y && dx < x
                        - start_x)) ==> copy@.pixel(dx, dy) == #[trigger] f(dx, dy),
            decreases end_x - x,
        {
            let color = state.get_pixel(x, y);
            let ghost before = copy@;
            copy.set_pixel(x - start_x, y - start_y, color);
            proof {
                before.lemma_holds(x - start_x, y - start_y);
                assert forall|dx: int, dy: int|
                    0 <= dx < width && (0 <= dy < y - start_y || (dy == y - start_y && dx < x + 1
                        - start_x)) implies copy@.pixel(dx, dy) == #[trigger] f(dx, dy) by {
                    before.lemma_with_pixel(x - start_x, y - start_y, color, dx, dy);
                    if !(dx == x - start_x && dy == y - start_y) {
                        assert(before.pixel(dx, dy) == f(dx, dy));
                    }
                }
            }
            x += 1;
        }
        y += 1;
    }
    proof {
        assert forall|dx: int, dy: int| 0 <= dx < width && 0 <= dy < height implies color_at(
            copy.pixels@,
            4 * (dy * width + dx),
        ) == #[trigger] f(dx, dy) by {
            copy@.lemma_holds(dx, dy);
            assert(copy@.pixel(dx, dy) == f(dx, dy));
        }
        lemma_buffer_determined(copy.pixels@, width, height, f);
    }
    Some(copy.pixels)
}

/// Makes one more change to the active layer in the course of an edit that
/// began at the state `start`: the pixel takes the colour, and the change
/// is listed with the colour that the pixel had.
pub(crate) fn paint(
    state: &mut EditorState,
    changes: &mut Vec<(u32, u32, Color, Color)>,
    x: u32,
    y: u32,
    color: Color,
    Ghost(start): Ghost<EditorStateView>,
)
    requires
        old(state).wf(),
        start.wf(),
        old(state)@ == start.with_painted(old(changes)@),
        change_positions(old(changes)@).no_duplicates(),
        !change_positions(old(changes)@).contains((x, y)),
    ensures
        final(state).wf(),
        final(state)@ == start.with_painted(final(changes)@),
        final(changes)@ == old(changes)@.push(
            (x, y, start.active_layer().pixel(x as int, y as int), color),
        ),
        change_positions(final(changes)@).no_duplicates(),
        change_positions(final(changes)@) == change_positions(old(changes)@).push((x, y)),
{
    let index = state.active_layer_index;
    proof {
        assert(index == start.active_layer_index);
        assert(state@.layers[index as int] == state.layers@[index as int]@);
        assert(state@.layers[index as int] == apply_changes(
            start.active_layer(),
            changes@,
            true,
        ));
    }
    let old_color = state.layers[index].get_pixel(x, y);
    state.layers[index].set_pixel(x, y, color);
    changes.push((x, y, old_color, color));
    proof {
        let earlier = old(changes)@;
        let painted = apply_changes(start.active_layer(), earlier, true);
        assert(old_color == painted.pixel(x as int, y as int));
        assert forall|k: int| 0 <= k < earlier.len() implies !((#[trigger] earlier[k]).0 == x
            && earlier[k].1 == y) by {
            assert(change_positions(earlier)[k] == (earlier[k].0, earlier[k].1));
            assert(change_positions(earlier).contains(change_positions(earlier)[k]));
        }
        lemma_apply_changes_pixel(start.active_layer(), earlier, true, x as int, y as int);
        assert(old_color == start.active_layer().pixel(x as int, y as int));
        assert(state.layers@[index as int]@ == painted.with_pixel(x as int, y as int, color));
        assert(changes@.last() == (x, y, old_color, color));
        assert(changes@.drop_last() =~= earlier);
        assert(apply_changes(start.active_layer(), changes@, true) == painted.with_pixel(
            x as int,
            y as int,
            color,
        ));
        assert forall|i: int| 0 <= i < state@.layers.len() implies state@.layers[i]
            == start.with_painted(changes@).layers[i] by {
            if i != index {
                assert(state.layers@[i] == old(state).layers@[i]);
                assert(old(state)@.layers[i] == start.with_painted(earlier).layers[i]);
            }
        }
        assert(state@.layers =~= start.with_painted(changes@).layers);
        assert(change_positions(changes@) =~= change_positions(earlier).push((x, y)));
        lemma_apply_changes_frame(start.active_layer(), changes@, true);
        assert forall|i: int| 0 <= i < state@.layers.len() implies layer_fits(
            #[trigger] state@.layers[i],
            state.canvas_width,
            state.canvas_height,
        ) by {
            assert(layer_fits(start.layers[i], start.canvas_width, start.canvas_height));
        }
        assert forall|i: int, j: int|
            0 <= i < changes@.len() && 0 <= j < changes@.len() && i != j implies change_positions(
            changes@,
        )[i] != change_positions(changes@)[j] by {
            if i < earlier.len() && j < earlier.len() {
                assert(change_positions(earlier)[i] != change_positions(earlier)[j]);
            } else if i < earlier.len() {
                assert(change_positions(earlier).contains(change_positions(earlier)[i]));
            } else {
                assert(change_positions(earlier).contains(change_positions(earlier)[j]));
            }
        }
    }
}

/// Pastes a buffer of `width` by `height` pixels into the active layer with
/// its top left corner at `(start_x, start_y)`. What falls outside the
/// canvas is clipped, and so is what the buffer does not hold. The pixels
/// written are recorded as one command.
pub fn paste_pixels(
    state: &mut EditorState,
    pixels: &[u8],
    start_x: u32,
    start_y: u32,
    width: u32,
    height: u32,
)
    requires
        old(state).wf(),
    ensures
        final(state)@ == old(state)@.paste(pixels@, start_x, start_y, width, height),
        final(state).wf(),
{
    let ghost start = state@;
    let ghost set = start.paste_set(pixels@.len() as int, start_x, start_y, width, height);
    let canvas_width = state.canvas_width;
    let canvas_height = state.canvas_height;
    let layer_index = state.active_layer_index;
    let source_cells: u64 = (pixels.len() / 4) as u64;
    let mut changes: Vec<(u32, u32, Color, Color)> = Vec::new();
    proof {
        assert(start.with_painted(changes@).layers =~= start.layers);
    }
    let mut y: u32 = 0;
    while y < height
        invariant
            y <= height,
            state.wf(),
            start.wf(),
            canvas_width == start.canvas_width,
            canvas_height == start.canvas_height,
            source_cells == pixels@.len() / 4,
            state@ == start.with_painted(changes@),
            ascending(change_positions(changes@), true),
            forall|p: (u32, u32)|
                #![trigger change_positions(changes@).contains(p)]
                change_positions(changes@).contains(p) <==> (in_paste(
                    p,
                    pixels@.len() as int,
                    start_x,
                    start_y,
                    width,
                    height,
                    canvas_width,
                    canvas_height,
                ) && p.1 - start_y < y),
            forall|k: int|
                0 <= k < changes@.len() ==> (#[trigger] changes@[k]).2
                    == start.active_layer().pixel(changes@[k].0 as int, changes@[k].1 as int)
                    && changes@[k].3 == pasted_color(
                    pixels@,
                    (changes@[k].0, changes@[k].1),
                    start_x,
                    start_y,
                    width,
                ),
        decreases height - y,
    {
        let mut x: u32 = 0;
        while x < width
            invariant
                x <= width,
                y < height,
                state.wf(),
                start.wf(),
                canvas_width == start.canvas_width,
                canvas_height == start.canvas_height,
                source_cells == pixels@.len() / 4,
                state@ == start.with_painted(changes@),
                ascending(change_positions(changes@), true),
                forall|p: (u32, u32)|
                    #![trigger change_positions(changes@).contains(p)]
                    change_positions(changes@).contains(p) <==> (in_paste(
                        p,
                        pixels@.len() as int,
                        start_x,
                        start_y,
                        width,
                        height,
                        canvas_width,
                        canvas_height,
                    ) && (p.1 - start_y < y || (p.1 - start_y == y && p.0 - start_x < x))),
                forall|k: int|
                    0 <= k < changes@.len() ==> (#[trigger] changes@[k]).2
                        == start.active_layer().pixel(changes@[k].0 as int, changes@[k].1 as int)
                        && changes@[k].3 == pasted_color(
                        pixels@,
                        (changes@[k].0, changes@[k].1),
                        start_x,
                        start_y,
                        width,
                    ),
            decreases width - x,
        {
            let canvas_x: u64 = start_x as u64 + x as u64;
            let canvas_y: u64 = start_y as u64 + y as u64;
            assert(y * width + x <= 0xffff_ffff * 0xffff_ffff + 0xffff_ffff) by (nonlinear_arith)
                requires
                    y <= 0xffff_ffff,
                    width <= 0xffff_ffff,
                    x <= 0xffff_ffff,
            ;
            let cell: u64 = (y as u64) * (width as u64) + (x as u64);
            let ghost earlier = changes@;
            let ghost listed = change_positions(earlier);
            if canvas_x < canvas_width as u64 && canvas_y < canvas_height as u64 && cell
                < source_cells {
                assert(cell * 4 + 3 < pixels@.len() <= usize::MAX) by {
                    assert(pixels.len() == pixels@.len());
                }
                let index: usize = (cell * 4) as usize;
                let new_color = Color {
                    r: pixels[index],
                    g: pixels[index + 1],
                    b: pixels[index + 2],
                    a: pixels[index + 3],
                };
                let px = canvas_x as u32;
                let py = canvas_y as u32;
                proof {
                    lemma_ascending_distinct(listed, true);
                    if listed.contains((px, py)) {
                        assert(false);
                    }
                }
                paint(state, &mut changes, px, py, new_color, Ghost(start));
                proof {
                    let now = change_positions(changes@);
                    assert forall|i: int, j: int| 0 <= i < j < now.len() implies position_key(
                        #[trigger] now[i],
                        true,
                    ) < position_key(#[trigger] now[j], true) by {
                        if j == listed.len() {
                            assert(listed.contains(listed[i]));
                        } else {
                            assert(now[i] == listed[i] && now[j] == listed[j]);
                        }
                    }
                    assert forall|p: (u32, u32)|
                        now.contains(p) <==> (in_paste(
                            p,
                            pixels@.len() as int,
                            start_x,
                            start_y,
                            width,
                            height,
                            canvas_width,
                            canvas_height,
                        ) && (p.1 - start_y < y || (p.1 - start_y == y && p.0 - start_x < x + 1))) by {
                        assert(listed.contains(p) <==> (in_paste(
                            p,
                            pixels@.len() as int,
                            start_x,
                            start_y,
                            width,
                            height,
                            canvas_width,
                            canvas_height,
                        ) && (p.1 - start_y < y || (p.1 - start_y == y && p.0 - start_x < x))));
                        if now.contains(p) {
                            let k = choose|k: int| 0 <= k < now.len() && now[k] == p;
                            if k < listed.len() {
                                assert(listed[k] == p);
                                assert(listed.contains(p));
                            }
                        }
                        if listed.contains(p) {
                            let k = choose|k: int| 0 <= k < listed.len() && listed[k] == p;
                            assert(now[k] == p);
                        }
                        if p == (px, py) {
                            assert(now[listed.len() as int] == p);
                        }
                    }
                    assert forall|k: int| 0 <= k < changes@.len() implies (#[trigger] changes@[k]).2
                        == start.active_layer().pixel(changes@[k].0 as int, changes@[k].1 as int)
                        && changes@[k].3 == pasted_color(
                        pixels@,
                        (changes@[k].0, changes@[k].1),
                        start_x,
                        start_y,
                        width,
                    ) by {
                        if k < earlier.len() {
                            assert(changes@[k] == earlier[k]);
                        }
                    }
                }
            } else {
                proof {
                    assert forall|p: (u32, u32)|
                        listed.contains(p) <==> (in_paste(
                            p,
                            pixels@.len() as int,
                            start_x,
                            start_y,
                            width,
                            height,
                            canvas_width,
                            canvas_height,
                        ) && (p.1 - start_y < y || (p.1 - start_y == y && p.0 - start_x < x + 1))) by {
                        assert(listed.contains(p) <==> (in_paste(
                            p,
                            pixels@.len() as int,
                            start_x,
                            start_y,
                            width,
                            height,
                            canvas_width,
                            canvas_height,
                        ) && (p.1 - start_y < y || (p.1 - start_y == y && p.0 - start_x < x))));
                    }
                }
            }
            x += 1;
        }
        y += 1;
    }
    proof {
        let positions = change_positions(changes@);
        assert(lists(positions, set)) by {
            assert forall|p: (u32, u32)| positions.contains(p) <==> set.contains(p) by {
                assert(positions.contains(p) <==> (in_paste(
                    p,
                    pixels@.len() as int,
                    start_x,
                    start_y,
                    width,
                    height,
                    canvas_width,
                    canvas_height,
                ) && p.1 - start_y < height));
            }
        }
        lemma_sorted_positions(positions, set, true);
        assert(changes@ =~= start.paste_changes(pixels@, start_x, start_y, width, height));
    }
    if changes.len() > 0 {
        proof {
            start.history.lemma_push(
                EditCommandView::MultiPixelChange { layer_index, changes: changes@ },
            );
        }
        state.history.push(EditCommand::MultiPixelChange { layer_index, changes });
    } else {
        proof {
            assert(state@.layers =~= start.layers);
        }
    }
}

impl EditorState {
    /// Copies the selection to the clipboard: the composited colours of
    /// its part on the canvas. Nothing happens without a selection or with
    /// one that covers no pixel.
    pub fn copy_selection(&mut self)
        requires
            old(self).wf(),
        ensures
            final(self)@ == old(self)@.copy_selection(),
            final(self).wf(),
    {
        if let Some(selection) = self.selection {
            if let Some(pixels) = get_selection_pixels(self, selection) {
                let (start_x, start_y, end_x, end_y) = selection.clamped(
                    self.canvas_width,
                    self.canvas_height,
                );
                let width = end_x.saturating_sub(start_x);
                let height = end_y.saturating_sub(start_y);
                proof {
                    vstd::seq::axiom_seq_new_len(
                        buffer_len(width, height) as nat,
                        |i: int| 0u8,
                    );
                }
                self.clipboard = Some(ClipboardData { pixels, width, height });
            }
        }
    }

    /// Pastes the clipboard into the active layer at `(x, y)`; see
    /// `paste_pixels`. Nothing happens while the clipboard is empty.
    pub fn paste_selection(&mut self, x: u32, y: u32)
        requires
            old(self).wf(),
        ensures
            final(self)@ == old(self)@.paste_selection(x, y),
            final(self).wf(),
    {
        let clipboard = match &self.clipboard {
            Some(data) => Some(data.clone()),
            None => None,
        };
        if let Some(data) = clipboard {
            paste_pixels(self, data.pixels.as_slice(), x, y, data.width, data.height);
        }
    }

    /// Cuts the selection: copies it to the clipboard and makes its part
    /// on the canvas transparent black on the active layer.
    pub fn cut_selection(&mut self)
        requires
            old(self).wf(),
        ensures
            final(self)@ == old(self)@.cut_selection(),
            final(self).wf(),
    {
        if let Some(selection) = self.selection {
            if let Some(pixels) = get_selection_pixels(self, selection) {
                let (start_x, start_y, end_x, end_y) = selection.clamped(
                    self.canvas_width,
                    self.canvas_height,
                );
                let width = end_x.saturating_sub(start_x);
                let height = end_y.saturating_sub(start_y);
                proof {
                    lemma_buffer_within(width, height, self.canvas_width, self.canvas_height);
                    assert(layer_fits(self@.layers[0], self.canvas_width, self.canvas_height));
                    assert(self.layers@[0].pixels.len() == buffer_len(
                        self.canvas_width,
                        self.canvas_height,
                    ));
                }
                self.clipboard = Some(ClipboardData { pixels, width, height });
                let blank = Layer::new(String::new(), width, height);
                paste_pixels(self, blank.pixels.as_slice(), start_x, start_y, width, height);
            }
        }
    }
}

/// What a paste does to the pixels: on the active layer every position
/// that the paste writes shows the source's colour, and every other
/// position is as it was. A paste that reaches beyond the canvas writes
/// what falls on the canvas and leaves the state well formed.
pub proof fn lemma_paste_paints(
    state: EditorStateView,
    source: Seq<u8>,
    start_x: u32,
    start_y: u32,
    width: u32,
    height: u32,
    q: (u32, u32),
)
    requires
        state.wf(),
        state.in_bounds(q.0 as int, q.1 as int),
    ensures
        state.paste(source, start_x, start_y, width, height).wf(),
        state.paste(source, start_x, start_y, width, height).active_layer().pixel(
            q.0 as int,
            q.1 as int,
        ) == if in_paste(
            q,
            source.len() as int,
            start_x,
            start_y,
            width,
            height,
            state.canvas_width,
            state.canvas_height,
        ) {
            pasted_color(source, q, start_x, start_y, width)
        } else {
            state.active_layer().pixel(q.0 as int, q.1 as int)
        },
{
    let after = state.paste(source, start_x, start_y, width, height);
    let changes = state.paste_changes(source, start_x, start_y, width, height);
    let set = state.paste_set(source.len() as int, start_x, start_y, width, height);
    let positions = sorted_positions(set, true);
    let layer = state.active_layer();
    let index = state.active_layer_index as int;
    crate::positions::lemma_sorted_positions_exist(set, true);
    assert(change_positions(changes) =~= positions);
    assert(layer_fits(state.layers[index], state.canvas_width, state.canvas_height));
    lemma_apply_changes_pixel(layer, changes, true, q.0 as int, q.1 as int);
    lemma_apply_changes_frame(layer, changes, true);
    layer.lemma_holds(q.0 as int, q.1 as int);
    if changes.len() > 0 {
        state.history.lemma_push(
            EditCommandView::MultiPixelChange {
                layer_index: state.active_layer_index,
                changes,
            },
        );
        assert forall|i: int| 0 <= i < after.layers.len() implies layer_fits(
            #[trigger] after.layers[i],
            after.canvas_width,
            after.canvas_height,
        ) by {
            assert(layer_fits(state.layers[i], state.canvas_width, state.canvas_height));
        }
    }
    if set.contains(q) {
        assert(positions.contains(q));
        let k = choose|k: int| 0 <= k < positions.len() && positions[k] == q;
        assert(changes[k].0 == q.0 && changes[k].1 == q.1);
    } else {
        assert forall|k: int| 0 <= k < changes.len() implies !((#[trigger] changes[k]).0 == q.0
            && changes[k].1 == q.1) by {
            if changes[k].0 == q.0 && changes[k].1 == q.1 {
                assert(positions[k] == q);
                assert(positions.contains(q));
            }
        }
    }
}

/// Copying a selection and pasting the copy where it was taken puts on
/// the active layer, at every position of the selection on the canvas, the
/// colour that the canvas showed there, and changes no other position of
/// that layer.
pub proof fn lemma_copy_paste_round_trip(state: EditorStateView, q: (u32, u32))
    requires
        state.wf(),
        state.selection is Some,
        state.copy_of(state.selection->0) is Some,
        state.in_bounds(q.0 as int, q.1 as int),
    ensures
        state.copy_selection().paste_selection(
            state.selection->0.start_x(state.canvas_width) as u32,
            state.selection->0.start_y(state.canvas_height) as u32,
        ).active_layer().pixel(q.0 as int, q.1 as int) == if state.selection->0.start_x(
            state.canvas_width,
        ) <= q.0 < state.selection->0.end_x(state.canvas_width) && state.selection->0.start_y(
            state.canvas_height,
        ) <= q.1 < state.selection->0.end_y(state.canvas_height) {
            state.composite(q.0 as int, q.1 as int)
        } else {
            state.active_layer().pixel(q.0 as int, q.1 as int)
        },
{
    let selection = state.selection->0;
    let copy = state.copy_of(selection)->0;
    let start_x = selection.start_x(state.canvas_width) as u32;
    let start_y = selection.start_y(state.canvas_height) as u32;
    let copied = state.copy_selection();
    lemma_paste_paints(copied, copy.pixels, start_x, start_y, copy.width, copy.height, q);
    if start_x <= q.0 < selection.end_x(state.canvas_width) && start_y <= q.1 < selection.end_y(
        state.canvas_height,
    ) {
        crate::layer::lemma_buffer_of_pixel(
            copy.width,
            copy.height,
            |dx: int, dy: int| state.composite(start_x + dx, start_y + dy),
            q.0 - start_x,
            q.1 - start_y,
        );
    }
}

/// On a canvas of a single visible, fully opaque layer, copying a
/// selection and pasting the copy where it was taken leaves every pixel as
/// it was, provided that the pixels without alpha are transparent black.
pub proof fn lemma_copy_paste_restores(state: EditorStateView, q: (u32, u32))
    requires
        state.wf(),
        state.layers.len() == 1,
        state.layers[0].visible,
        state.layers[0].opacity == crate::color::OPACITY_MAX,
        state.selection is Some,
        state.copy_of(state.selection->0) is Some,
        state.in_bounds(q.0 as int, q.1 as int),
        state.layers[0].pixel(q.0 as int, q.1 as int).a == 0 ==> state.layers[0].pixel(
            q.0 as int,
            q.1 as int,
        ) == Color::transparent(),
    ensures
        state.copy_selection().paste_selection(
            state.selection->0.start_x(state.canvas_width) as u32,
            state.selection->0.start_y(state.canvas_height) as u32,
        ).active_layer().pixel(q.0 as int, q.1 as int) == state.layers[0].pixel(
            q.0 as int,
            q.1 as int,
        ),
{
    lemma_copy_paste_round_trip(state, q);
    crate::compositor::lemma_single_layer_composite(state, q.0 as int, q.1 as int);
}

} // verus!

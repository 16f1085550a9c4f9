//! The drawing tools: the square brush with its mirror images, pencil,
//! eraser and eyedropper.

use crate::color::Color;
use crate::commands::{
    apply_changes, change_positions, lemma_apply_changes_frame, lemma_apply_changes_pixel,
};
use crate::editor::lemma_add_used_wf;
use crate::history::{EditCommand, EditCommandView};
use crate::positions::{
    ascending, insert_position, lemma_ascending_distinct, lemma_sorted_positions, lists,
    position_key, sorted_positions,
};
use crate::state::{add_used, is_used, layer_fits, EditorState, EditorStateView};
use vstd::prelude::*;

verus! {

/// How far a brush of the given size reaches from its centre.
pub open spec fn brush_radius(size: u32) -> int {
    (size / 2) as int
}

/// Whether a position lies under a square brush centred at `(x, y)`: no
/// further than the radius from the centre in either direction, and on
/// the canvas.
pub open spec fn in_brush(
    p: (u32, u32),
    x: u32,
    y: u32,
    size: u32,
    canvas_width: u32,
    canvas_height: u32,
) -> bool {
    &&& x - brush_radius(size) <= p.0 <= x + brush_radius(size)
    &&& y - brush_radius(size) <= p.1 <= y + brush_radius(size)
    &&& p.0 < canvas_width
    &&& p.1 < canvas_height
}

/// The positions under a brush.
pub open spec fn brush_set(
    x: u32,
    y: u32,
    size: u32,
    canvas_width: u32,
    canvas_height: u32,
) -> Set<(u32, u32)> {
    Set::new(|p: (u32, u32)| in_brush(p, x, y, size, canvas_width, canvas_height))
}

/// A coordinate mirrored on the middle of an extent: `extent - 1 - v`, and
/// zero where that would be negative.
pub open spec fn mirror_coordinate(extent: u32, v: u32) -> u32 {
    if v + 1 <= extent {
        (extent - 1 - v) as u32
    } else {
        0
    }
}

/// Whether `q` is `p` or one of its mirror images: across the vertical
/// axis when mirroring is horizontal, across the horizontal axis when it is
/// vertical, and across both when both are on.
pub open spec fn is_mirror_of(
    q: (u32, u32),
    p: (u32, u32),
    canvas_width: u32,
    canvas_height: u32,
    horizontal: bool,
    vertical: bool,
) -> bool {
    ||| q == p
    ||| horizontal && q == (mirror_coordinate(canvas_width, p.0), p.1)
    ||| vertical && q == (p.0, mirror_coordinate(canvas_height, p.1))
    ||| horizontal && vertical && q == (
        mirror_coordinate(canvas_width, p.0),
        mirror_coordinate(canvas_height, p.1),
    )
}

/// A position with its mirror images.
pub open spec fn mirror_set(
    p: (u32, u32),
    canvas_width: u32,
    canvas_height: u32,
    horizontal: bool,
    vertical: bool,
) -> Set<(u32, u32)> {
    Set::new(
        |q: (u32, u32)| is_mirror_of(q, p, canvas_width, canvas_height, horizontal, vertical),
    )
}

impl EditorStateView {
    /// Whether a stroke at `(x, y)` touches `q`: `q` is a position under
    /// the brush or a mirror image of one.
    pub open spec fn in_stamp(self, q: (u32, u32), x: u32, y: u32) -> bool {
        exists|p: (u32, u32)| #[trigger]
            in_brush(p, x, y, self.brush_size, self.canvas_width, self.canvas_height)
                && is_mirror_of(
                q,
                p,
                self.canvas_width,
                self.canvas_height,
                self.mirror_horizontal,
                self.mirror_vertical,
            )
    }

    /// The positions that a stroke at `(x, y)` touches.
    pub open spec fn stamp_set(self, x: u32, y: u32) -> Set<(u32, u32)> {
        Set::new(|q: (u32, u32)| self.in_stamp(q, x, y))
    }

    /// The positions that a stroke at `(x, y)` touches, each once, ordered
    /// by columns.
    pub open spec fn stamp_positions(self, x: u32, y: u32) -> Seq<(u32, u32)> {
        sorted_positions(self.stamp_set(x, y), false)
    }

    /// The changes that a stroke of a colour at `(x, y)` makes to the
    /// active layer: for every position touched, what the layer showed
    /// there and the colour.
    pub open spec fn stamp_changes(self, x: u32, y: u32, color: Color) -> Seq<
        (u32, u32, Color, Color),
    > {
        let positions = self.stamp_positions(x, y);
        Seq::new(
            positions.len(),
            |i: int|
                (
                    positions[i].0,
                    positions[i].1,
                    self.active_layer().pixel(positions[i].0 as int, positions[i].1 as int),
                    color,
                ),
        )
    }

    /// The state after a stroke of a colour at `(x, y)`. A stroke outside
    /// the canvas changes nothing. Otherwise every position touched takes
    /// the colour on the active layer, the colour counts as used, and the
    /// history records the changes as one command.
    pub open spec fn stamp(self, x: u32, y: u32, color: Color) -> EditorStateView {
        if self.in_bounds(x as int, y as int) {
            let changes = self.stamp_changes(x, y, color);
            EditorStateView {
                layers: self.layers.update(
                    self.active_layer_index as int,
                    apply_changes(self.active_layer(), changes, true),
                ),
                used_colors: add_used(self.used_colors, color),
                history: self.history.push(
                    EditCommandView::record(self.active_layer_index, changes),
                ),
                ..self
            }
        } else {
            self
        }
    }

    /// The state after the pencil drew at `(x, y)`: a stroke of the primary colour.
    pub open spec fn pencil(self, x: u32, y: u32) -> EditorStateView {
        self.stamp(x, y, self.primary_color)
    }

    /// The state after the eraser drew at `(x, y)`: a stroke of transparent black.
    pub open spec fn eraser(self, x: u32, y: u32) -> EditorStateView {
        self.stamp(x, y, Color::transparent())
    }

    /// The state after the eyedropper picked at `(x, y)`: the composited
    /// colour there becomes the primary colour and counts as used, unless
    /// it has next to no alpha or the position is outside the canvas.
    pub open spec fn eyedropper(self, x: u32, y: u32) -> EditorStateView {
        let color = self.composite(x as int, y as int);
        if self.in_bounds(x as int, y as int) && !color.is_faint() {
            EditorStateView {
                primary_color: color,
                used_colors: add_used(self.used_colors, color),
                ..self
            }
        } else {
            self
        }
    }
}

/// The positions under a square brush centred at `(x, y)`, row by row.
pub fn get_brush_pixels(x: u32, y: u32, size: u32, canvas_width: u32, canvas_height: u32) -> (pixels:
    Vec<(u32, u32)>)
    ensures
        pixels@ == sorted_positions(brush_set(x, y, size, canvas_width, canvas_height), true),
        ascending(pixels@, true),
        lists(pixels@, brush_set(x, y, size, canvas_width, canvas_height)),
{
    let mut pixels: Vec<(u32, u32)> = Vec::new();
    let radius: i64 = (size / 2) as i64;
    let mut dy: i64 = -radius;
    while dy <= radius
        invariant
            radius == brush_radius(size),
            -radius <= dy <= radius + 1,
            ascending(pixels@, true),
            forall|p: (u32, u32)|
                #![trigger pixels@.contains(p)]
                #![trigger in_brush(p, x, y, size, canvas_width, canvas_height)]
                pixels@.contains(p) <==> (in_brush(p, x, y, size, canvas_width, canvas_height)
                    && p.1 < y + dy),
        decreases radius + 1 - dy,
    {
        let py: i64 = y as i64 + dy;
        let mut dx: i64 = -radius;
        while dx <= radius
            invariant
                radius == brush_radius(size),
                -radius <= dy <= radius,
                -radius <= dx <= radius + 1,
                py == y + dy,
                ascending(pixels@, true),
                forall|p: (u32, u32)|
                    #![trigger pixels@.contains(p)]
                    #![trigger in_brush(p, x, y, size, canvas_width, canvas_height)]
                    pixels@.contains(p) <==> (in_brush(p, x, y, size, canvas_width, canvas_height)
                        && (p.1 < py || (p.1 == py && p.0 < x + dx))),
            decreases radius + 1 - dx,
        {
            let px: i64 = x as i64 + dx;
            if px >= 0 && py >= 0 && px < canvas_width as i64 && py < canvas_height as i64 {
                let ghost before = pixels@;
                let pixel = (px as u32, py as u32);
                pixels.push(pixel);
                proof {
                    assert forall|i: int, j: int| 0 <= i < j < pixels@.len() implies position_key(
                        #[trigger] pixels@[i],
                        true,
                    ) < position_key(#[trigger] pixels@[j], true) by {
                        if j == before.len() {
                            assert(before.contains(before[i]));
                        } else {
                            assert(pixels@[i] == before[i] && pixels@[j] == before[j]);
                        }
                    }
                    assert forall|p: (u32, u32)|
                        pixels@.contains(p) <==> (in_brush(
                            p,
                            x,
                            y,
                            size,
                            canvas_width,
                            canvas_height,
                        ) && (p.1 < py || (p.1 == py && p.0 < x + dx + 1))) by {
                        if pixels@.contains(p) {
                            let k = choose|k: int| 0 <= k < pixels@.len() && pixels@[k] == p;
                            if k < before.len() {
                                assert(before[k] == p);
                                assert(before.contains(p));
                            }
                        }
                        if before.contains(p) {
                            let k = choose|k: int| 0 <= k < before.len() && before[k] == p;
                            assert(pixels@[k] == p);
                        }
                        if p == pixel {
                            assert(pixels@[before.len() as int] == p);
                        }
                    }
                }
            }
            dx += 1;
        }
        dy += 1;
    }
    proof {
        assert(lists(pixels@, brush_set(x, y, size, canvas_width, canvas_height)));
        lemma_sorted_positions(pixels@, brush_set(x, y, size, canvas_width, canvas_height), true);
    }
    pixels
}

/// A coordinate mirrored on the middle of an extent.
fn mirror(extent: u32, v: u32) -> (m: u32)
    ensures
        m == mirror_coordinate(extent, v),
{
    extent.saturating_sub(1).saturating_sub(v)
}

/// A position with its mirror images under the state's mirror settings,
/// each once, ordered by columns.
pub fn get_mirrored_positions(state: &EditorState, x: u32, y: u32) -> (positions: Vec<(u32, u32)>)
    ensures
        positions@ == sorted_positions(
            mirror_set(
                (x, y),
                state.canvas_width,
                state.canvas_height,
                state.mirror_horizontal,
                state.mirror_vertical,
            ),
            false,
        ),
        ascending(positions@, false),
        lists(
            positions@,
            mirror_set(
                (x, y),
                state.canvas_width,
                state.canvas_height,
                state.mirror_horizontal,
                state.mirror_vertical,
            ),
        ),
{
    let mut positions: Vec<(u32, u32)> = Vec::new();
    insert_position(&mut positions, (x, y));
    if state.mirror_horizontal {
        insert_position(&mut positions, (mirror(state.canvas_width, x), y));
    }
    if state.mirror_vertical {
        insert_position(&mut positions, (x, mirror(state.canvas_height, y)));
    }
    if state.mirror_horizontal && state.mirror_vertical {
        insert_position(
            &mut positions,
            (mirror(state.canvas_width, x), mirror(state.canvas_height, y)),
        );
    }
    proof {
        let set = mirror_set(
            (x, y),
            state.canvas_width,
            state.canvas_height,
            state.mirror_horizontal,
            state.mirror_vertical,
        );
        assert(lists(positions@, set));
        lemma_sorted_positions(positions@, set, false);
    }
    positions
}

/// Using a colour twice is the same as using it once.
pub proof fn lemma_add_used_idempotent(colors: Seq<Color>, color: Color)
    ensures
        add_used(add_used(colors, color), color) == add_used(colors, color),
{
    let once = add_used(colors, color);
    if !(color.is_faint() || is_used(colors, color)) {
        let last = once.len() - 1;
        assert(once[last] == color);
        assert(once[last].close_to(color));
        assert(is_used(once, color));
    }
}

/// Whether `q` is one of a list of positions or a mirror image of one.
pub open spec fn mirrors_one_of(
    q: (u32, u32),
    sources: Seq<(u32, u32)>,
    canvas_width: u32,
    canvas_height: u32,
    horizontal: bool,
    vertical: bool,
) -> bool {
    exists|k: int|
        0 <= k < sources.len() && is_mirror_of(
            q,
            #[trigger] sources[k],
            canvas_width,
            canvas_height,
            horizontal,
            vertical,
        )
}

/// A list with one more of its elements holds what it held before and that element.
proof fn lemma_take_contains(s: Seq<(u32, u32)>, j: int, q: (u32, u32))
    requires
        0 <= j < s.len(),
    ensures
        s.take(j + 1).contains(q) <==> (s.take(j).contains(q) || q == s[j]),
{
    let more = s.take(j + 1);
    let fewer = s.take(j);
    if more.contains(q) {
        let m = choose|m: int| 0 <= m < more.len() && more[m] == q;
        if m < j {
            assert(fewer[m] == q);
        }
    }
    if fewer.contains(q) {
        let m = choose|m: int| 0 <= m < fewer.len() && fewer[m] == q;
        assert(more[m] == q);
    }
    if q == s[j] {
        assert(more[j] == q);
    }
}

/// With one more source, the mirror images are those of the sources
/// before and those of the new one.
proof fn lemma_mirrors_one_more(
    q: (u32, u32),
    sources: Seq<(u32, u32)>,
    i: int,
    canvas_width: u32,
    canvas_height: u32,
    horizontal: bool,
    vertical: bool,
)
    requires
        0 <= i < sources.len(),
    ensures
        mirrors_one_of(q, sources.take(i + 1), canvas_width, canvas_height, horizontal, vertical)
            <==> (mirrors_one_of(
            q,
            sources.take(i),
            canvas_width,
            canvas_height,
            horizontal,
            vertical,
        ) || is_mirror_of(q, sources[i], canvas_width, canvas_height, horizontal, vertical)),
{
    let more = sources.take(i + 1);
    let fewer = sources.take(i);
    if mirrors_one_of(q, more, canvas_width, canvas_height, horizontal, vertical) {
        let k = choose|k: int|
            0 <= k < more.len() && is_mirror_of(
                q,
                #[trigger] more[k],
                canvas_width,
                canvas_height,
                horizontal,
                vertical,
            );
        if k < i {
            assert(fewer[k] == more[k]);
            assert(is_mirror_of(q, fewer[k], canvas_width, canvas_height, horizontal, vertical));
        }
    }
    if mirrors_one_of(q, fewer, canvas_width, canvas_height, horizontal, vertical) {
        let k = choose|k: int|
            0 <= k < fewer.len() && is_mirror_of(
                q,
                #[trigger] fewer[k],
                canvas_width,
                canvas_height,
                horizontal,
                vertical,
            );
        assert(more[k] == fewer[k]);
        assert(is_mirror_of(q, more[k], canvas_width, canvas_height, horizontal, vertical));
    }
    if is_mirror_of(q, sources[i], canvas_width, canvas_height, horizontal, vertical) {
        assert(more[i] == sources[i]);
        assert(is_mirror_of(q, more[i], canvas_width, canvas_height, horizontal, vertical));
    }
}

/// The mirror images of the brush's positions are what a stroke touches.
proof fn lemma_mirrors_of_brush(state: EditorStateView, brush: Seq<(u32, u32)>, x: u32, y: u32, q: (u32, u32))
    requires
        lists(
            brush,
            brush_set(x, y, state.brush_size, state.canvas_width, state.canvas_height),
        ),
    ensures
        mirrors_one_of(
            q,
            brush,
            state.canvas_width,
            state.canvas_height,
            state.mirror_horizontal,
            state.mirror_vertical,
        ) <==> state.in_stamp(q, x, y),
{
    let set = brush_set(x, y, state.brush_size, state.canvas_width, state.canvas_height);
    if mirrors_one_of(
        q,
        brush,
        state.canvas_width,
        state.canvas_height,
        state.mirror_horizontal,
        state.mirror_vertical,
    ) {
        let k = choose|k: int|
            0 <= k < brush.len() && is_mirror_of(
                q,
                #[trigger] brush[k],
                state.canvas_width,
                state.canvas_height,
                state.mirror_horizontal,
                state.mirror_vertical,
            );
        assert(brush.contains(brush[k]));
        assert(set.contains(brush[k]));
        assert(in_brush(
            brush[k],
            x,
            y,
            state.brush_size,
            state.canvas_width,
            state.canvas_height,
        ));
    }
    if state.in_stamp(q, x, y) {
        let p = choose|p: (u32, u32)| #[trigger]
            in_brush(p, x, y, state.brush_size, state.canvas_width, state.canvas_height)
                && is_mirror_of(
                q,
                p,
                state.canvas_width,
                state.canvas_height,
                state.mirror_horizontal,
                state.mirror_vertical,
            );
        assert(set.contains(p));
        assert(brush.contains(p));
        let k = choose|k: int| 0 <= k < brush.len() && brush[k] == p;
        assert(is_mirror_of(
            q,
            brush[k],
            state.canvas_width,
            state.canvas_height,
            state.mirror_horizontal,
            state.mirror_vertical,
        ));
    }
}

/// The positions that a stroke at `(x, y)` touches: the brush's positions
/// with their mirror images, each once, ordered by columns.
fn stroke_positions(state: &EditorState, x: u32, y: u32) -> (positions: Vec<(u32, u32)>)
    ensures
        positions@ == state@.stamp_positions(x, y),
        ascending(positions@, false),
        lists(positions@, state@.stamp_set(x, y)),
{
    let brush = get_brush_pixels(
        x,
        y,
        state.brush_size,
        state.canvas_width,
        state.canvas_height,
    );
    let mut all: Vec<(u32, u32)> = Vec::new();
    let mut i: usize = 0;
    proof {
        assert forall|q: (u32, u32)|
            !mirrors_one_of(
                q,
                brush@.take(0),
                state.canvas_width,
                state.canvas_height,
                state.mirror_horizontal,
                state.mirror_vertical,
            ) by {
            assert(brush@.take(0).len() == 0);
        }
    }
    while i < brush.len()
        invariant
            i <= brush.len(),
            ascending(all@, false),
            forall|q: (u32, u32)|
                #![trigger all@.contains(q)]
                all@.contains(q) <==> mirrors_one_of(
                    q,
                    brush@.take(i as int),
                    state.canvas_width,
                    state.canvas_height,
                    state.mirror_horizontal,
                    state.mirror_vertical,
                ),
        decreases brush.len() - i,
    {
        let mirrored = get_mirrored_positions(state, brush[i].0, brush[i].1);
        let ghost before = all@;
        let mut j: usize = 0;
        proof {
            assert(mirrored@.take(0).len() == 0);
        }
        while j < mirrored.len()
            invariant
                j <= mirrored.len(),
                ascending(all@, false),
                forall|q: (u32, u32)|
                    #![trigger all@.contains(q)]
                    all@.contains(q) <==> (before.contains(q) || mirrored@.take(j as int).contains(
                        q,
                    )),
            decreases mirrored.len() - j,
        {
            let ghost inner = all@;
            insert_position(&mut all, mirrored[j]);
            proof {
                assert forall|q: (u32, u32)|
                    all@.contains(q) <==> (before.contains(q) || mirrored@.take(
                        j as int + 1,
                    ).contains(q)) by {
                    lemma_take_contains(mirrored@, j as int, q);
                    assert(all@.contains(q) <==> (inner.contains(q) || q == mirrored@[j as int]));
                    assert(inner.contains(q) <==> (before.contains(q) || mirrored@.take(
                        j as int,
                    ).contains(q)));
                }
            }
            j += 1;
        }
        proof {
            assert(mirrored@.take(mirrored.len() as int) =~= mirrored@);
            assert((brush@[i as int].0, brush@[i as int].1) == brush@[i as int]);
            assert forall|q: (u32, u32)|
                all@.contains(q) <==> mirrors_one_of(
                    q,
                    brush@.take(i as int + 1),
                    state.canvas_width,
                    state.canvas_height,
                    state.mirror_horizontal,
                    state.mirror_vertical,
                ) by {
                assert(all@.contains(q) <==> (before.contains(q) || mirrored@.contains(q)));
                assert(before.contains(q) <==> mirrors_one_of(
                    q,
                    brush@.take(i as int),
                    state.canvas_width,
                    state.canvas_height,
                    state.mirror_horizontal,
                    state.mirror_vertical,
                ));
                lemma_mirrors_one_more(
                    q,
                    brush@,
                    i as int,
                    state.canvas_width,
                    state.canvas_height,
                    state.mirror_horizontal,
                    state.mirror_vertical,
                );
                assert(mirrored@.contains(q) <==> is_mirror_of(
                    q,
                    brush@[i as int],
                    state.canvas_width,
                    state.canvas_height,
                    state.mirror_horizontal,
                    state.mirror_vertical,
                )) by {
                    assert(mirror_set(
                        brush@[i as int],
                        state.canvas_width,
                        state.canvas_height,
                        state.mirror_horizontal,
                        state.mirror_vertical,
                    ).contains(q) <==> is_mirror_of(
                        q,
                        brush@[i as int],
                        state.canvas_width,
                        state.canvas_height,
                        state.mirror_horizontal,
                        state.mirror_vertical,
                    ));
                }
            }
        }
        i += 1;
    }
    proof {
        let set = state@.stamp_set(x, y);
        assert(brush@.take(brush.len() as int) =~= brush@);
        assert forall|q: (u32, u32)| all@.contains(q) <==> set.contains(q) by {
            lemma_mirrors_of_brush(state@, brush@, x, y, q);
        }
        lemma_sorted_positions(all@, set, false);
    }
    all
}

impl EditorStateView {
    /// The state in the middle of a stroke, when some of its changes are
    /// made: the active layer holds them, and the colour counts as used
    /// once the first is made.
    pub open spec fn with_changes(
        self,
        changes: Seq<(u32, u32, Color, Color)>,
        color: Color,
    ) -> EditorStateView {
        EditorStateView {
            layers: self.layers.update(
                self.active_layer_index as int,
                apply_changes(self.active_layer(), changes, true),
            ),
            used_colors: if changes.len() > 0 {
                add_used(self.used_colors, color)
            } else {
                self.used_colors
            },
            ..self
        }
    }
}

/// Records a stroke's changes in the history: one `PixelChange` for a
/// single change, one `MultiPixelChange` for several, nothing for none.
pub fn record_changes(state: &mut EditorState, changes: Vec<(u32, u32, Color, Color)>)
    requires
        old(state).wf(),
    ensures
        final(state).wf(),
        final(state)@ == if changes@.len() > 0 {
            EditorStateView {
                history: old(state)@.history.push(
                    EditCommandView::record(old(state).active_layer_index, changes@),
                ),
                ..old(state)@
            }
        } else {
            old(state)@
        },
{
    let layer_index = state.active_layer_index;
    proof {
        if changes@.len() > 0 {
            old(state)@.history.lemma_push(EditCommandView::record(layer_index, changes@));
        }
    }
    if changes.len() == 1 {
        let (px, py, old_color, new_color) = changes[0];
        state.history.push(
            EditCommand::PixelChange { layer_index, x: px, y: py, old_color, new_color },
        );
    } else if changes.len() > 0 {
        state.history.push(EditCommand::MultiPixelChange { layer_index, changes });
    }
}

/// A stroke of a colour at `(x, y)`, as the pencil and the eraser make it.
fn apply_stroke(state: &mut EditorState, x: u32, y: u32, color: Color)
    requires
        old(state).wf(),
    ensures
        final(state)@ == old(state)@.stamp(x, y, color),
        final(state).wf(),
{
    if x >= state.canvas_width || y >= state.canvas_height {
        return ;
    }
    let layer_index = state.active_layer_index;
    let positions = stroke_positions(state, x, y);
    let ghost start = state@;
    let ghost planned = start.stamp_changes(x, y, color);
    proof {
        lemma_ascending_distinct(positions@, false);
        assert(change_positions(planned) =~= positions@);
        let p = (x, y);
        assert(in_brush(p, x, y, state.brush_size, state.canvas_width, state.canvas_height)
            && is_mirror_of(
            p,
            p,
            state.canvas_width,
            state.canvas_height,
            state.mirror_horizontal,
            state.mirror_vertical,
        ));
        assert(start.stamp_set(x, y).contains(p));
        assert(positions@.contains(p));
        assert(start.with_changes(planned.take(0), color).layers =~= start.layers) by {
            assert(planned.take(0).len() == 0);
        }
    }
    let mut changes: Vec<(u32, u32, Color, Color)> = Vec::new();
    let mut i: usize = 0;
    while i < positions.len()
        invariant
            i <= positions.len(),
            state.wf(),
            layer_index == start.active_layer_index,
            start.wf(),
            positions@ == start.stamp_positions(x, y),
            planned == start.stamp_changes(x, y, color),
            change_positions(planned) == positions@,
            positions@.no_duplicates(),
            changes@ == planned.take(i as int),
            state@ == start.with_changes(changes@, color),
        decreases positions.len() - i,
    {
        let px = positions[i].0;
        let py = positions[i].1;
        let old_color = state.layers[layer_index].get_pixel(px, py);
        let ghost before = state@;
        state.set_pixel(px, py, color);
        let ghost earlier = changes@;
        changes.push((px, py, old_color, color));
        proof {
            assert(change_positions(earlier) =~= positions@.take(i as int));
            assert(change_positions(earlier).no_duplicates());
            lemma_apply_changes_pixel(start.active_layer(), earlier, true, px as int, py as int);
            assert forall|k: int| 0 <= k < earlier.len() implies !((#[trigger] earlier[k]).0 == px
                && earlier[k].1 == py) by {
                assert(positions@[k] != positions@[i as int]);
                assert(earlier[k] == planned[k]);
            }
            assert(old_color == start.active_layer().pixel(px as int, py as int));
            assert(changes@ =~= planned.take(i + 1));
            assert(changes@.drop_last() =~= earlier);
            lemma_add_used_idempotent(start.used_colors, color);
            assert(state@.layers =~= start.with_changes(changes@, color).layers);
        }
        i += 1;
    }
    proof {
        assert(planned.take(positions.len() as int) =~= planned);
    }
    record_changes(state, changes);
}

/// Draws with the pencil at `(x, y)`: the brush and its mirror images put
/// the primary colour on the active layer, and the stroke is recorded as
/// one command. Outside the canvas nothing happens.
pub fn apply_pencil(state: &mut EditorState, x: u32, y: u32)
    requires
        old(state).wf(),
    ensures
        final(state)@ == old(state)@.pencil(x, y),
        final(state).wf(),
{
    let color = state.primary_color;
    apply_stroke(state, x, y, color)
}

/// Draws with the eraser at `(x, y)`: as the pencil does, with transparent
/// black in place of the primary colour.
pub fn apply_eraser(state: &mut EditorState, x: u32, y: u32)
    requires
        old(state).wf(),
    ensures
        final(state)@ == old(state)@.eraser(x, y),
        final(state).wf(),
{
    apply_stroke(state, x, y, Color::transparent())
}

/// Picks the colour that the canvas shows at `(x, y)` as the primary
/// colour, unless it has next to no alpha.
pub fn apply_eyedropper(state: &mut EditorState, x: u32, y: u32)
    requires
        old(state).wf(),
    ensures
        final(state)@ == old(state)@.eyedropper(x, y),
        final(state).wf(),
{
    if x >= state.canvas_width || y >= state.canvas_height {
        return ;
    }
    let color = state.get_pixel(x, y);
    if color.a > crate::color::CHANNEL_TOLERANCE {
        state.primary_color = color;
        state.add_used_color(color);
    }
}

/// With horizontal mirroring, what a stroke touches is symmetric about the
/// vertical axis of the canvas: a stroke at `(x, y)` touches `(x, y)` and
/// `(width - 1 - x, y)`, with every position it touches it touches the
/// mirror image, and all of them lie on the canvas. With vertical
/// mirroring the same holds about the horizontal axis.
pub proof fn lemma_mirror_symmetry(state: EditorStateView, x: u32, y: u32)
    requires
        state.in_bounds(x as int, y as int),
    ensures
        state.in_stamp((x, y), x, y),
        state.mirror_horizontal ==> state.in_stamp(
            ((state.canvas_width - 1 - x) as u32, y),
            x,
            y,
        ),
        state.mirror_vertical ==> state.in_stamp(
            (x, (state.canvas_height - 1 - y) as u32),
            x,
            y,
        ),
        forall|q: (u32, u32)| #[trigger]
            state.in_stamp(q, x, y) ==> {
                &&& state.in_bounds(q.0 as int, q.1 as int)
                &&& state.mirror_horizontal ==> state.in_stamp(
                    ((state.canvas_width - 1 - q.0) as u32, q.1),
                    x,
                    y,
                )
                &&& state.mirror_vertical ==> state.in_stamp(
                    (q.0, (state.canvas_height - 1 - q.1) as u32),
                    x,
                    y,
                )
            },
{
    let w = state.canvas_width;
    let h = state.canvas_height;
    let mh = state.mirror_horizontal;
    let mv = state.mirror_vertical;
    let centre = (x, y);
    assert(in_brush(centre, x, y, state.brush_size, w, h));
    assert(is_mirror_of(centre, centre, w, h, mh, mv));
    if mh {
        assert(is_mirror_of(((w - 1 - x) as u32, y), centre, w, h, mh, mv));
    }
    if mv {
        assert(is_mirror_of((x, (h - 1 - y) as u32), centre, w, h, mh, mv));
    }
    assert forall|q: (u32, u32)| #[trigger] state.in_stamp(q, x, y) implies {
        &&& state.in_bounds(q.0 as int, q.1 as int)
        &&& mh ==> state.in_stamp(((w - 1 - q.0) as u32, q.1), x, y)
        &&& mv ==> state.in_stamp((q.0, (h - 1 - q.1) as u32), x, y)
    } by {
        let p = choose|p: (u32, u32)| #[trigger]
            in_brush(p, x, y, state.brush_size, w, h) && is_mirror_of(q, p, w, h, mh, mv);
        if mh {
            assert(is_mirror_of(((w - 1 - q.0) as u32, q.1), p, w, h, mh, mv));
        }
        if mv {
            assert(is_mirror_of((q.0, (h - 1 - q.1) as u32), p, w, h, mh, mv));
        }
    }
}

/// A stroke writes every position it touches once, in one order: the list
/// of the positions of a stroke holds none twice and holds exactly what the
/// stroke touches.
pub proof fn lemma_stroke_writes_once(state: EditorStateView, x: u32, y: u32)
    ensures
        state.stamp_positions(x, y).no_duplicates(),
        lists(state.stamp_positions(x, y), state.stamp_set(x, y)),
        ascending(state.stamp_positions(x, y), false),
{
    crate::positions::lemma_sorted_positions_exist(state.stamp_set(x, y), false);
}

/// A stroke of a colour on the canvas leaves the state well formed, gives
/// the active layer that colour at every position it touches, and leaves
/// every other pixel of the canvas as it was.
pub proof fn lemma_stamp_paints(
    state: EditorStateView,
    x: u32,
    y: u32,
    color: Color,
    q: (u32, u32),
)
    requires
        state.wf(),
        state.in_bounds(x as int, y as int),
        state.in_bounds(q.0 as int, q.1 as int),
    ensures
        state.stamp(x, y, color).wf(),
        state.stamp(x, y, color).active_layer().pixel(q.0 as int, q.1 as int) == if state.in_stamp(
            q,
            x,
            y,
        ) {
            color
        } else {
            state.active_layer().pixel(q.0 as int, q.1 as int)
        },
        forall|i: int|
            0 <= i < state.layers.len() && i != state.active_layer_index ==> #[trigger] state.stamp(
                x,
                y,
                color,
            ).layers[i] == state.layers[i],
{
    let after = state.stamp(x, y, color);
    let changes = state.stamp_changes(x, y, color);
    let set = state.stamp_set(x, y);
    let positions = state.stamp_positions(x, y);
    let layer = state.active_layer();
    let index = state.active_layer_index as int;
    crate::positions::lemma_sorted_positions_exist(set, false);
    assert(change_positions(changes) =~= positions);
    assert(layer_fits(state.layers[index], state.canvas_width, state.canvas_height));
    lemma_apply_changes_pixel(layer, changes, true, q.0 as int, q.1 as int);
    lemma_apply_changes_frame(layer, changes, true);
    layer.lemma_holds(q.0 as int, q.1 as int);
    state.history.lemma_push(EditCommandView::record(state.active_layer_index, changes));
    lemma_add_used_wf(state.used_colors, color);
    assert forall|i: int| 0 <= i < after.layers.len() implies layer_fits(
        #[trigger] after.layers[i],
        after.canvas_width,
        after.canvas_height,
    ) by {
        assert(layer_fits(state.layers[i], state.canvas_width, state.canvas_height));
    }
    if set.contains(q) {
        assert(positions.contains(q));
        let k = choose|k: int| 0 <= k < positions.len() && positions[k] == q;
        assert(changes[k].0 == q.0 && changes[k].1 == q.1);
    } else {
        assert forall|k: int| 0 <= k < changes.len() implies !((#[trigger] changes[k]).0 == q.0
            && changes[k].1 == q.1) by {
            if changes[k].0 == q.0 && changes[k].1 == q.1 {
                assert(positions[k] == q);
                assert(positions.contains(q));
            }
        }
    }
}

/// A one-pixel brush on the axis of symmetry writes one pixel: where the
/// mirror image of `(x, y)` is `(x, y)` itself, the stroke touches that
/// position and no other.
pub proof fn lemma_stroke_on_axis(state: EditorStateView, x: u32, y: u32)
    requires
        state.in_bounds(x as int, y as int),
        state.brush_size == 1,
        state.mirror_horizontal ==> state.canvas_width - 1 - x == x,
        state.mirror_vertical ==> state.canvas_height - 1 - y == y,
    ensures
        state.stamp_positions(x, y) == seq![(x, y)],
{
    let only = seq![(x, y)];
    let set = state.stamp_set(x, y);
    assert(only[0] == (x, y));
    assert forall|q: (u32, u32)|
        #![trigger only.contains(q)]
        #![trigger set.contains(q)]
        only.contains(q) <==> set.contains(q) by {
        if only.contains(q) {
            let p = (x, y);
            assert(in_brush(
                p,
                x,
                y,
                state.brush_size,
                state.canvas_width,
                state.canvas_height,
            ) && is_mirror_of(
                q,
                p,
                state.canvas_width,
                state.canvas_height,
                state.mirror_horizontal,
                state.mirror_vertical,
            ));
        }
        if set.contains(q) {
            let p = choose|p: (u32, u32)| #[trigger]
                in_brush(p, x, y, state.brush_size, state.canvas_width, state.canvas_height)
                    && is_mirror_of(
                    q,
                    p,
                    state.canvas_width,
                    state.canvas_height,
                    state.mirror_horizontal,
                    state.mirror_vertical,
                );
            assert(p == (x, y));
            assert(q == only[0]);
        }
    }
    lemma_sorted_positions(only, set, false);
}

} // verus!

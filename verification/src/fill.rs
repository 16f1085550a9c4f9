//! Flood fill: the region of one colour around a seed, found breadth
//! first over the four neighbours of every pixel.

use crate::clipboard::paint;
use crate::color::Color;
use crate::commands::change_positions;
use crate::history::{EditCommand, EditCommandView};
use crate::layer::{buffer_len, lemma_cell_bound, lemma_cell_injective, LayerView};
use crate::state::{layer_fits, EditorState, EditorStateView};
use vstd::prelude::*;

verus! {

/// Where a breadth-first fill stands: the pixels found so far in the order
/// in which they were found, the same pixels as a set, and the pixels
/// filled so far in the order in which they were filled.
pub struct FillProgress {
    pub queue: Seq<(u32, u32)>,
    pub visited: Set<(u32, u32)>,
    pub filled: Seq<(u32, u32)>,
}

/// The neighbour of a pixel in one of the four directions, in the order in
/// which a fill looks at them: left, right, up, down.
pub open spec fn neighbor(p: (u32, u32), direction: int) -> (int, int) {
    if direction == 0 {
        (p.0 - 1, p.1 as int)
    } else if direction == 1 {
        (p.0 + 1, p.1 as int)
    } else if direction == 2 {
        (p.0 as int, p.1 - 1)
    } else {
        (p.0 as int, p.1 + 1)
    }
}

/// Whether a position lies on an image of the given dimensions.
pub open spec fn on_image(n: (int, int), width: u32, height: u32) -> bool {
    0 <= n.0 < width && 0 <= n.1 < height
}

impl FillProgress {
    /// The start of a fill: the seed is found, nothing is filled.
    pub open spec fn start(seed: (u32, u32)) -> FillProgress {
        FillProgress { queue: seq![seed], visited: set![seed], filled: Seq::empty() }
    }

    /// The progress after a look at one neighbour: a pixel on the image
    /// that was not found before is found now.
    pub open spec fn look(self, n: (int, int), width: u32, height: u32) -> FillProgress {
        if on_image(n, width, height) && !self.visited.contains((n.0 as u32, n.1 as u32)) {
            FillProgress {
                queue: self.queue.push((n.0 as u32, n.1 as u32)),
                visited: self.visited.insert((n.0 as u32, n.1 as u32)),
                ..self
            }
        } else {
            self
        }
    }

    /// The progress after the pixel at place `head` of the queue was
    /// taken up: where it has the target colour it is filled and its four
    /// neighbours are looked at; else nothing changes. Beyond the end of
    /// the queue nothing changes either.
    pub open spec fn step(self, layer: LayerView, target: Color, head: int) -> FillProgress {
        if 0 <= head < self.queue.len() && layer.pixel(
            self.queue[head].0 as int,
            self.queue[head].1 as int,
        ) == target {
            let p = self.queue[head];
            (FillProgress { filled: self.filled.push(p), ..self }).look(
                neighbor(p, 0),
                layer.width,
                layer.height,
            ).look(neighbor(p, 1), layer.width, layer.height).look(
                neighbor(p, 2),
                layer.width,
                layer.height,
            ).look(neighbor(p, 3), layer.width, layer.height)
        } else {
            self
        }
    }
}

/// The progress of a fill from a seed after a number of pixels were taken
/// up from the queue.
pub open spec fn fill_after(layer: LayerView, target: Color, seed: (u32, u32), steps: nat) -> FillProgress
    decreases steps,
{
    if steps == 0 {
        FillProgress::start(seed)
    } else {
        fill_after(layer, target, seed, (steps - 1) as nat).step(layer, target, steps - 1)
    }
}

/// The pixels that a fill from a seed fills, in the order in which it
/// fills them. No fill takes up more pixels than the layer has.
pub open spec fn fill_positions(layer: LayerView, seed: (u32, u32)) -> Seq<(u32, u32)> {
    fill_after(
        layer,
        layer.pixel(seed.0 as int, seed.1 as int),
        seed,
        (layer.width * layer.height) as nat,
    ).filled
}

impl EditorStateView {
    /// The changes that a fill at `(x, y)` makes to the active layer: every
    /// pixel filled goes from the seed's colour to the primary colour.
    pub open spec fn fill_changes(self, x: u32, y: u32) -> Seq<(u32, u32, Color, Color)> {
        let positions = fill_positions(self.active_layer(), (x, y));
        Seq::new(
            positions.len(),
            |i: int|
                (
                    positions[i].0,
                    positions[i].1,
                    self.active_layer().pixel(x as int, y as int),
                    self.primary_color,
                ),
        )
    }

    /// The state after a fill at `(x, y)`. Outside the canvas, and where
    /// the seed has the primary colour already, nothing changes. Otherwise
    /// the seed's region on the active layer takes the primary colour, and
    /// the history records that as one command.
    pub open spec fn fill(self, x: u32, y: u32) -> EditorStateView {
        if self.in_bounds(x as int, y as int) && self.active_layer().pixel(x as int, y as int)
            != self.primary_color {
            let changes = self.fill_changes(x, y);
            EditorStateView {
                history: self.history.push(
                    EditCommandView::MultiPixelChange {
                        layer_index: self.active_layer_index,
                        changes,
                    },
                ),
                ..self.with_painted(changes)
            }
        } else {
            self
        }
    }
}

/// The number of entries of a list that are `true`.
pub open spec fn count_true(s: Seq<bool>) -> nat
    decreases s.len(),
{
    if s.len() == 0 {
        0
    } else {
        count_true(s.drop_last()) + if s.last() {
            1nat
        } else {
            0nat
        }
    }
}

/// No more entries are `true` than there are entries.
pub proof fn lemma_count_true_bound(s: Seq<bool>)
    ensures
        count_true(s) <= s.len(),
    decreases s.len(),
{
    if s.len() > 0 {
        lemma_count_true_bound(s.drop_last());
    }
}

/// Setting an entry that was `false` makes one more entry `true`.
pub proof fn lemma_count_true_set(s: Seq<bool>, i: int)
    requires
        0 <= i < s.len(),
        !s[i],
    ensures
        count_true(s.update(i, true)) == count_true(s) + 1,
    decreases s.len(),
{
    let t = s.update(i, true);
    if i == s.len() - 1 {
        assert(t.drop_last() =~= s.drop_last());
    } else {
        assert(t.drop_last() =~= s.drop_last().update(i, true));
        lemma_count_true_set(s.drop_last(), i);
    }
}

/// Whether a queue and a bitmap hold a fill's progress on an image: the
/// queue is the progress's, the bitmap has an entry for every pixel that
/// says whether the pixel was found, and every pixel was found once.
pub open spec fn tracks(
    queue: Seq<(u32, u32)>,
    bitmap: Seq<bool>,
    progress: FillProgress,
    width: u32,
    height: u32,
) -> bool {
    &&& queue == progress.queue
    &&& bitmap.len() == width * height
    &&& queue.len() == count_true(bitmap)
    &&& forall|p: (u32, u32)|
        on_image((p.0 as int, p.1 as int), width, height) ==> bitmap[p.1 * width + p.0]
            == #[trigger] progress.visited.contains(p)
}

/// Looks at one neighbour in the course of a fill: a pixel on the image
/// that was not found before goes to the end of the queue.
fn look(
    queue: &mut Vec<(u32, u32)>,
    bitmap: &mut Vec<bool>,
    nx: i64,
    ny: i64,
    width: u32,
    height: u32,
    Ghost(progress): Ghost<FillProgress>,
)
    requires
        tracks(old(queue)@, old(bitmap)@, progress, width, height),
        -1 <= nx <= u32::MAX + 1,
        -1 <= ny <= u32::MAX + 1,
    ensures
        tracks(
            final(queue)@,
            final(bitmap)@,
            progress.look((nx as int, ny as int), width, height),
            width,
            height,
        ),
{
    if nx >= 0 && ny >= 0 && nx < width as i64 && ny < height as i64 {
        proof {
            lemma_cell_bound(nx as int, ny as int, width as int, height as int);
            assert(bitmap.len() == width * height);
            assert(0 <= ny * width <= ny * width + nx);
        }
        let cell: usize = (ny as usize) * (width as usize) + (nx as usize);
        let n = (nx as u32, ny as u32);
        proof {
            assert(bitmap@[n.1 * width + n.0] == progress.visited.contains(n));
        }
        if !bitmap[cell] {
            proof {
                lemma_count_true_set(bitmap@, cell as int);
            }
            bitmap[cell] = true;
            queue.push(n);
            proof {
                let next = progress.look((nx as int, ny as int), width, height);
                assert forall|p: (u32, u32)|
                    on_image((p.0 as int, p.1 as int), width, height) implies bitmap@[p.1 * width
                    + p.0] == #[trigger] next.visited.contains(p) by {
                    lemma_cell_bound(p.0 as int, p.1 as int, width as int, height as int);
                    assert(old(bitmap)@[p.1 * width + p.0] == progress.visited.contains(p));
                    if p.1 * width + p.0 == cell {
                        lemma_cell_injective(
                            p.0 as int,
                            p.1 as int,
                            nx as int,
                            ny as int,
                            width as int,
                        );
                    }
                }
            }
        }
    }
}

/// In a finished fill, taking up more pixels changes nothing.
pub proof fn lemma_fill_finished(
    layer: LayerView,
    target: Color,
    seed: (u32, u32),
    done: nat,
    steps: nat,
)
    requires
        done <= steps,
        fill_after(layer, target, seed, done).queue.len() <= done,
    ensures
        fill_after(layer, target, seed, steps) == fill_after(layer, target, seed, done),
    decreases steps,
{
    if steps > done {
        lemma_fill_finished(layer, target, seed, done, (steps - 1) as nat);
    }
}

/// A list without a `true` entry counts none.
pub proof fn lemma_count_true_none(s: Seq<bool>)
    requires
        forall|i: int| 0 <= i < s.len() ==> !s[i],
    ensures
        count_true(s) == 0,
    decreases s.len(),
{
    if s.len() > 0 {
        lemma_count_true_none(s.drop_last());
    }
}

/// Whether the pixels found are in order: the queue holds no pixel twice,
/// every pixel in it lies on the image, and the set of pixels found is the
/// set of the queue's pixels.
pub open spec fn found_in_order(progress: FillProgress, width: u32, height: u32) -> bool {
    &&& progress.queue.no_duplicates()
    &&& forall|j: int|
        0 <= j < progress.queue.len() ==> on_image(
            ((#[trigger] progress.queue[j]).0 as int, progress.queue[j].1 as int),
            width,
            height,
        ) && progress.visited.contains(progress.queue[j])
    &&& forall|p: (u32, u32)| #[trigger] progress.visited.contains(p) ==> progress.queue.contains(p)
}

/// Whether a pixel stands at one of the first `head` places of a queue.
pub open spec fn taken_before(queue: Seq<(u32, u32)>, head: int, p: (u32, u32)) -> bool {
    exists|j: int| 0 <= j < head && j < queue.len() && #[trigger] queue[j] == p
}

/// Whether the pixels filled are those of the first `head` places of the
/// queue that have the target colour, each once.
pub open spec fn filled_in_order(
    layer: LayerView,
    target: Color,
    progress: FillProgress,
    head: int,
) -> bool {
    &&& progress.filled.no_duplicates()
    &&& forall|k: int|
        0 <= k < progress.filled.len() ==> taken_before(
            progress.queue,
            head,
            #[trigger] progress.filled[k],
        )
    &&& forall|k: int|
        0 <= k < progress.filled.len() ==> layer.pixel(
            (#[trigger] progress.filled[k]).0 as int,
            progress.filled[k].1 as int,
        ) == target
    &&& forall|j: int|
        0 <= j < head && j < progress.queue.len() && layer.pixel(
            (#[trigger] progress.queue[j]).0 as int,
            progress.queue[j].1 as int,
        ) == target ==> progress.filled.contains(progress.queue[j])
}

/// A look at a neighbour keeps the pixels found in order and the pixels
/// filled as they are; what was in the queue stays at its place.
pub proof fn lemma_look(progress: FillProgress, n: (int, int), width: u32, height: u32)
    requires
        found_in_order(progress, width, height),
    ensures
        found_in_order(progress.look(n, width, height), width, height),
        progress.look(n, width, height).filled == progress.filled,
        progress.look(n, width, height).queue.len() >= progress.queue.len(),
        forall|j: int|
            0 <= j < progress.queue.len() ==> progress.look(n, width, height).queue[j]
                == progress.queue[j],
        forall|p: (u32, u32)|
            progress.visited.contains(p) ==> progress.look(n, width, height).visited.contains(p),
        on_image(n, width, height) ==> progress.look(n, width, height).visited.contains(
            (n.0 as u32, n.1 as u32),
        ),
{
    let next = progress.look(n, width, height);
    if on_image(n, width, height) && !progress.visited.contains((n.0 as u32, n.1 as u32)) {
        let q = (n.0 as u32, n.1 as u32);
        assert(!progress.queue.contains(q)) by {
            if progress.queue.contains(q) {
                let j = choose|j: int| 0 <= j < progress.queue.len() && progress.queue[j] == q;
                assert(progress.visited.contains(progress.queue[j]));
            }
        }
        assert forall|i: int, j: int|
            0 <= i < next.queue.len() && 0 <= j < next.queue.len() && i != j implies next.queue[i]
            != next.queue[j] by {
            if i < progress.queue.len() && j < progress.queue.len() {
                assert(progress.queue[i] != progress.queue[j]);
            } else if i < progress.queue.len() {
                assert(progress.queue.contains(progress.queue[i]));
            } else {
                assert(progress.queue.contains(progress.queue[j]));
            }
        }
        assert forall|p: (u32, u32)| #[trigger] next.visited.contains(p) implies next.queue.contains(
            p,
        ) by {
            if p == q {
                assert(next.queue[progress.queue.len() as int] == p);
            } else {
                assert(progress.visited.contains(p));
                let j = choose|j: int| 0 <= j < progress.queue.len() && progress.queue[j] == p;
                assert(next.queue[j] == p);
            }
        }
        assert forall|j: int| 0 <= j < next.queue.len() implies on_image(
            ((#[trigger] next.queue[j]).0 as int, next.queue[j].1 as int),
            width,
            height,
        ) && next.visited.contains(next.queue[j]) by {
            if j < progress.queue.len() {
                assert(next.queue[j] == progress.queue[j]);
                assert(progress.visited.contains(progress.queue[j]));
            }
        }
    }
}

/// What a step does to the progress of a fill: the pixels found stay in
/// order, what was in the queue stays at its place, and the pixel taken up
/// is filled if and only if it has the target colour.
pub proof fn lemma_step(layer: LayerView, target: Color, progress: FillProgress, head: int)
    requires
        found_in_order(progress, layer.width, layer.height),
        filled_in_order(layer, target, progress, head),
        0 <= head,
    ensures
        found_in_order(progress.step(layer, target, head), layer.width, layer.height),
        filled_in_order(layer, target, progress.step(layer, target, head), head + 1),
        progress.step(layer, target, head).queue.len() >= progress.queue.len(),
        forall|j: int|
            0 <= j < progress.queue.len() ==> progress.step(layer, target, head).queue[j]
                == progress.queue[j],
        forall|p: (u32, u32)|
            progress.visited.contains(p) ==> progress.step(layer, target, head).visited.contains(
                p,
            ),
        progress.step(layer, target, head).filled == if head < progress.queue.len()
            && layer.pixel(progress.queue[head].0 as int, progress.queue[head].1 as int)
            == target {
            progress.filled.push(progress.queue[head])
        } else {
            progress.filled
        },
        head < progress.queue.len() && layer.pixel(
            progress.queue[head].0 as int,
            progress.queue[head].1 as int,
        ) == target ==> forall|d: int|
            0 <= d < 4 && on_image(neighbor(progress.queue[head], d), layer.width, layer.height)
                ==> progress.step(layer, target, head).visited.contains(
                (
                    (#[trigger] neighbor(progress.queue[head], d)).0 as u32,
                    neighbor(progress.queue[head], d).1 as u32,
                ),
            ),
{
    let next = progress.step(layer, target, head);
    let w = layer.width;
    let h = layer.height;
    if head < progress.queue.len() && layer.pixel(
        progress.queue[head].0 as int,
        progress.queue[head].1 as int,
    ) == target {
        let p = progress.queue[head];
        let s0 = FillProgress { filled: progress.filled.push(p), ..progress };
        let s1 = s0.look(neighbor(p, 0), w, h);
        let s2 = s1.look(neighbor(p, 1), w, h);
        let s3 = s2.look(neighbor(p, 2), w, h);
        let s4 = s3.look(neighbor(p, 3), w, h);
        assert(found_in_order(s0, w, h));
        lemma_look(s0, neighbor(p, 0), w, h);
        lemma_look(s1, neighbor(p, 1), w, h);
        lemma_look(s2, neighbor(p, 2), w, h);
        lemma_look(s3, neighbor(p, 3), w, h);
        assert(next == s4);
        assert(next.filled == progress.filled.push(p));
        assert forall|k: int| 0 <= k < progress.filled.len() implies progress.filled[k] != p by {
            assert(taken_before(progress.queue, head, progress.filled[k]));
            let j = choose|j: int|
                0 <= j < head && j < progress.queue.len() && #[trigger] progress.queue[j]
                    == progress.filled[k];
            assert(progress.queue[j] != progress.queue[head]);
        }
        assert(next.filled.no_duplicates()) by {
            assert forall|a: int, b: int|
                0 <= a < next.filled.len() && 0 <= b < next.filled.len() && a != b implies next.filled[a]
                != next.filled[b] by {
                if a < progress.filled.len() && b < progress.filled.len() {
                    assert(progress.filled[a] != progress.filled[b]);
                }
            }
        }
        assert forall|k: int| 0 <= k < next.filled.len() implies taken_before(
            next.queue,
            head + 1,
            #[trigger] next.filled[k],
        ) by {
            if k < progress.filled.len() {
                assert(taken_before(progress.queue, head, progress.filled[k]));
                let j = choose|j: int|
                    0 <= j < head && j < progress.queue.len() && #[trigger] progress.queue[j]
                        == progress.filled[k];
                assert(next.queue[j] == next.filled[k]);
            } else {
                assert(next.queue[head] == next.filled[k]);
            }
        }
        assert forall|j: int|
            0 <= j < head + 1 && j < next.queue.len() && layer.pixel(
                (#[trigger] next.queue[j]).0 as int,
                next.queue[j].1 as int,
            ) == target implies next.filled.contains(next.queue[j]) by {
            if j < head {
                assert(next.queue[j] == progress.queue[j]);
                assert(progress.filled.contains(progress.queue[j]));
                let k = choose|k: int|
                    0 <= k < progress.filled.len() && progress.filled[k] == progress.queue[j];
                assert(next.filled[k] == next.queue[j]);
            } else {
                assert(next.filled[progress.filled.len() as int] == next.queue[j]);
            }
        }
        assert forall|k: int| 0 <= k < next.filled.len() implies layer.pixel(
            (#[trigger] next.filled[k]).0 as int,
            next.filled[k].1 as int,
        ) == target by {
            if k < progress.filled.len() {
                assert(next.filled[k] == progress.filled[k]);
            }
        }
        assert forall|d: int| 0 <= d < 4 && on_image(neighbor(p, d), w, h) implies next.visited.contains(
            ((#[trigger] neighbor(p, d)).0 as u32, neighbor(p, d).1 as u32),
        ) by {
            let q = (neighbor(p, d).0 as u32, neighbor(p, d).1 as u32);
            if d == 0 {
                assert(s1.visited.contains(q));
                assert(s2.visited.contains(q));
                assert(s3.visited.contains(q));
            } else if d == 1 {
                assert(s2.visited.contains(q));
                assert(s3.visited.contains(q));
            } else if d == 2 {
                assert(s3.visited.contains(q));
            }
        }
    } else {
        assert forall|k: int| 0 <= k < next.filled.len() implies taken_before(
            next.queue,
            head + 1,
            #[trigger] next.filled[k],
        ) by {
            assert(taken_before(progress.queue, head, progress.filled[k]));
            let j = choose|j: int|
                0 <= j < head && j < progress.queue.len() && #[trigger] progress.queue[j]
                    == progress.filled[k];
            assert(next.queue[j] == next.filled[k]);
        }
    }
}

/// At every point of a fill on a layer that holds the seed, the pixels
/// found and the pixels filled are in order, and the seed is first in the
/// queue.
pub proof fn lemma_fill_in_order(layer: LayerView, target: Color, seed: (u32, u32), steps: nat)
    requires
        on_image((seed.0 as int, seed.1 as int), layer.width, layer.height),
    ensures
        found_in_order(fill_after(layer, target, seed, steps), layer.width, layer.height),
        filled_in_order(layer, target, fill_after(layer, target, seed, steps), steps as int),
        fill_after(layer, target, seed, steps).queue.len() > 0,
        fill_after(layer, target, seed, steps).queue[0] == seed,
    decreases steps,
{
    if steps == 0 {
        let start = FillProgress::start(seed);
        assert(start.queue[0] == seed);
        assert forall|p: (u32, u32)| #[trigger] start.visited.contains(p) implies start.queue.contains(
            p,
        ) by {
            assert(start.queue[0] == p);
        }
    } else {
        let before = fill_after(layer, target, seed, (steps - 1) as nat);
        lemma_fill_in_order(layer, target, seed, (steps - 1) as nat);
        lemma_step(layer, target, before, steps - 1);
    }
}

/// Fills the region of the seed's colour around `(x, y)` on the active
/// layer with the primary colour. The region is found breadth first: a
/// pixel of the seed's colour is filled and its left, right, upper and lower
/// neighbours are queued, each pixel once. All changes are recorded as one
/// command. Outside the canvas, and where the seed has the primary colour
/// already, nothing happens.
pub fn apply_fill(state: &mut EditorState, x: u32, y: u32)
    requires
        old(state).wf(),
    ensures
        final(state)@ == old(state)@.fill(x, y),
        final(state).wf(),
{
    if x >= state.canvas_width || y >= state.canvas_height {
        return ;
    }
    let primary = state.primary_color;
    let width = state.canvas_width;
    let height = state.canvas_height;
    let layer_index = state.active_layer_index;
    let ghost start = state@;
    let ghost layer = start.active_layer();
    let ghost seed = (x, y);
    proof {
        assert(layer_fits(start.layers[layer_index as int], width, height));
        assert(state.layers@[layer_index as int]@ == layer);
        assert(state.layers@[layer_index as int].pixels.len() == buffer_len(width, height));
        lemma_cell_bound(x as int, y as int, width as int, height as int);
        assert(0 <= y * width <= y * width + x);
    }
    let target = state.layers[layer_index].get_pixel(x, y);
    if target == primary {
        return ;
    }
    let area: usize = (width as usize) * (height as usize);
    let mut bitmap: Vec<bool> = vec![false; area];
    let mut queue: Vec<(u32, u32)> = Vec::new();
    let mut changes: Vec<(u32, u32, Color, Color)> = Vec::new();
    let seed_cell: usize = (y as usize) * (width as usize) + (x as usize);
    proof {
        lemma_count_true_none(bitmap@);
        lemma_count_true_set(bitmap@, seed_cell as int);
    }
    bitmap[seed_cell] = true;
    queue.push((x, y));
    proof {
        let begin = FillProgress::start(seed);
        assert(queue@ =~= begin.queue);
        assert forall|p: (u32, u32)|
            on_image((p.0 as int, p.1 as int), width, height) implies bitmap@[p.1 * width + p.0]
            == #[trigger] begin.visited.contains(p) by {
            lemma_cell_bound(p.0 as int, p.1 as int, width as int, height as int);
            if p.1 * width + p.0 == seed_cell {
                lemma_cell_injective(p.0 as int, p.1 as int, x as int, y as int, width as int);
            }
        }
        assert(start.with_painted(changes@).layers =~= start.layers);
        assert(change_positions(changes@) =~= begin.filled);
    }
    let mut head: usize = 0;
    while head < queue.len()
        invariant
            head <= queue.len(),
            state.wf(),
            start.wf(),
            layer == start.active_layer(),
            layer_index == start.active_layer_index,
            layer.wf(),
            layer.width == width,
            layer.height == height,
            seed == (x, y),
            on_image((x as int, y as int), width, height),
            target == layer.pixel(x as int, y as int),
            primary == start.primary_color,
            area == width * height,
            tracks(
                queue@,
                bitmap@,
                fill_after(layer, target, seed, head as nat),
                width,
                height,
            ),
            change_positions(changes@) == fill_after(layer, target, seed, head as nat).filled,
            forall|k: int|
                0 <= k < changes@.len() ==> (#[trigger] changes@[k]).2 == target && changes@[k].3
                    == primary,
            state@ == start.with_painted(changes@),
        decreases area - head,
    {
        let ghost progress = fill_after(layer, target, seed, head as nat);
        let c = queue[head];
        let cx = c.0;
        let cy = c.1;
        proof {
            lemma_fill_in_order(layer, target, seed, head as nat);
            lemma_count_true_bound(bitmap@);
            assert(on_image((progress.queue[head as int].0 as int, progress.queue[head as int].1 as int), width, height));
            assert(!progress.filled.contains(c)) by {
                if progress.filled.contains(c) {
                    let k = choose|k: int| 0 <= k < progress.filled.len() && progress.filled[k] == c;
                    assert(taken_before(progress.queue, head as int, progress.filled[k]));
                    let j = choose|j: int|
                        0 <= j < head && j < progress.queue.len() && #[trigger] progress.queue[j]
                            == c;
                    assert(progress.queue[j] != progress.queue[head as int]);
                }
            }
            assert forall|k: int| 0 <= k < changes@.len() implies !((#[trigger] changes@[k]).0 == cx
                && changes@[k].1 == cy) by {
                assert(change_positions(changes@)[k] == (changes@[k].0, changes@[k].1));
                assert(progress.filled.contains(progress.filled[k]));
            }
            crate::commands::lemma_apply_changes_pixel(layer, changes@, true, cx as int, cy as int);
            assert(state@.layers[layer_index as int] == state.layers@[layer_index as int]@);
            assert((cx, cy) == c);
            lemma_step(layer, target, progress, head as int);
        }
        let current = state.layers[layer_index].get_pixel(cx, cy);
        if current == target {
            let ghost earlier = changes@;
            paint(state, &mut changes, cx, cy, primary, Ghost(start));
            let ghost s0 = FillProgress { filled: progress.filled.push(c), ..progress };
            let ghost s1 = s0.look(neighbor(c, 0), width, height);
            let ghost s2 = s1.look(neighbor(c, 1), width, height);
            let ghost s3 = s2.look(neighbor(c, 2), width, height);
            look(&mut queue, &mut bitmap, cx as i64 - 1, cy as i64, width, height, Ghost(s0));
            look(&mut queue, &mut bitmap, cx as i64 + 1, cy as i64, width, height, Ghost(s1));
            look(&mut queue, &mut bitmap, cx as i64, cy as i64 - 1, width, height, Ghost(s2));
            look(&mut queue, &mut bitmap, cx as i64, cy as i64 + 1, width, height, Ghost(s3));
            proof {
                assert(fill_after(layer, target, seed, (head + 1) as nat) == progress.step(
                    layer,
                    target,
                    head as int,
                ));
                assert forall|k: int| 0 <= k < changes@.len() implies (#[trigger] changes@[k]).2
                    == target && changes@[k].3 == primary by {
                    if k < earlier.len() {
                        assert(changes@[k] == earlier[k]);
                    }
                }
            }
        } else {
            proof {
                assert(fill_after(layer, target, seed, (head + 1) as nat) == progress.step(
                    layer,
                    target,
                    head as int,
                ));
            }
        }
        head += 1;
    }
    proof {
        let done = fill_after(layer, target, seed, head as nat);
        lemma_fill_in_order(layer, target, seed, head as nat);
        lemma_count_true_bound(bitmap@);
        lemma_fill_finished(layer, target, seed, head as nat, area as nat);
        assert(fill_positions(layer, seed) == done.filled);
        assert(done.filled.contains(done.queue[0]));
        assert(changes@.len() > 0);
        assert(changes@ =~= start.fill_changes(x, y)) by {
            assert forall|k: int| 0 <= k < changes@.len() implies changes@[k]
                == start.fill_changes(x, y)[k] by {
                assert(change_positions(changes@)[k] == (changes@[k].0, changes@[k].1));
            }
        }
        start.history.lemma_push(
            EditCommandView::MultiPixelChange { layer_index, changes: changes@ },
        );
    }
    if changes.len() > 0 {
        state.history.push(EditCommand::MultiPixelChange { layer_index, changes });
    }
}

/// Whether two pixels are neighbours: next to each other in a row or in a column.
pub open spec fn adjacent(a: (u32, u32), b: (u32, u32)) -> bool {
    ||| a.1 == b.1 && (a.0 + 1 == b.0 || b.0 + 1 == a.0)
    ||| a.0 == b.0 && (a.1 + 1 == b.1 || b.1 + 1 == a.1)
}

/// Whether a list of pixels is a path of one colour on a layer: every
/// pixel lies on the layer and has the colour, and each is a neighbour of
/// the next.
pub open spec fn is_path(layer: LayerView, target: Color, path: Seq<(u32, u32)>) -> bool {
    &&& path.len() > 0
    &&& forall|i: int|
        0 <= i < path.len() ==> on_image(
            ((#[trigger] path[i]).0 as int, path[i].1 as int),
            layer.width,
            layer.height,
        ) && layer.pixel(path[i].0 as int, path[i].1 as int) == target
    &&& forall|i: int| 0 <= i < path.len() - 1 ==> adjacent(#[trigger] path[i], path[i + 1])
}

/// Whether a path of the given colour leads from the seed to a pixel.
pub open spec fn connected(layer: LayerView, target: Color, seed: (u32, u32), p: (u32, u32)) -> bool {
    exists|path: Seq<(u32, u32)>| #[trigger]
        is_path(layer, target, path) && path[0] == seed && path.last() == p
}

/// Whether a pixel belongs to the region of the seed: the pixels of the
/// seed's colour that a path of that colour joins to the seed.
pub open spec fn in_region(layer: LayerView, seed: (u32, u32), p: (u32, u32)) -> bool {
    connected(layer, layer.pixel(seed.0 as int, seed.1 as int), seed, p)
}

/// Whether a pixel is a neighbour of one of a list.
pub open spec fn beside(pixels: Seq<(u32, u32)>, q: (u32, u32)) -> bool {
    exists|k: int| 0 <= k < pixels.len() && adjacent(#[trigger] pixels[k], q)
}

/// Whether a fill has gone the right way so far: every pixel filled is
/// joined to the seed, every pixel found but the seed is a neighbour of
/// one that is filled, and all neighbours of the pixels filled are found.
pub open spec fn reaches(
    layer: LayerView,
    target: Color,
    seed: (u32, u32),
    progress: FillProgress,
    head: int,
) -> bool {
    &&& forall|k: int|
        0 <= k < progress.filled.len() ==> connected(
            layer,
            target,
            seed,
            #[trigger] progress.filled[k],
        )
    &&& forall|j: int|
        0 < j < progress.queue.len() ==> beside(progress.filled, #[trigger] progress.queue[j])
    &&& forall|j: int, d: int|
        0 <= j < head && j < progress.queue.len() && 0 <= d < 4 && layer.pixel(
            progress.queue[j].0 as int,
            progress.queue[j].1 as int,
        ) == target && on_image(neighbor(progress.queue[j], d), layer.width, layer.height)
            ==> progress.visited.contains(
            (
                (#[trigger] neighbor(progress.queue[j], d)).0 as u32,
                neighbor(progress.queue[j], d).1 as u32,
            ),
        )
}

/// What a look adds to the queue is the pixel looked at.
pub proof fn lemma_look_adds(progress: FillProgress, n: (int, int), width: u32, height: u32)
    ensures
        forall|j: int|
            progress.queue.len() <= j < progress.look(n, width, height).queue.len() ==> on_image(
                n,
                width,
                height,
            ) && #[trigger] progress.look(n, width, height).queue[j] == (n.0 as u32, n.1 as u32),
        progress.look(n, width, height).queue.len() >= progress.queue.len(),
{
}

/// What a step adds to the queue are neighbours of the pixel taken up,
/// and that pixel has the target colour.
pub proof fn lemma_step_adds(layer: LayerView, target: Color, progress: FillProgress, head: int)
    ensures
        forall|j: int|
            progress.queue.len() <= j < progress.step(layer, target, head).queue.len() ==> {
                &&& 0 <= head < progress.queue.len()
                &&& layer.pixel(progress.queue[head].0 as int, progress.queue[head].1 as int)
                    == target
                &&& adjacent(
                    progress.queue[head],
                    #[trigger] progress.step(layer, target, head).queue[j],
                )
            },
{
    let next = progress.step(layer, target, head);
    let w = layer.width;
    let h = layer.height;
    if 0 <= head < progress.queue.len() && layer.pixel(
        progress.queue[head].0 as int,
        progress.queue[head].1 as int,
    ) == target {
        let p = progress.queue[head];
        let s0 = FillProgress { filled: progress.filled.push(p), ..progress };
        let s1 = s0.look(neighbor(p, 0), w, h);
        let s2 = s1.look(neighbor(p, 1), w, h);
        let s3 = s2.look(neighbor(p, 2), w, h);
        let s4 = s3.look(neighbor(p, 3), w, h);
        lemma_look_adds(s0, neighbor(p, 0), w, h);
        lemma_look_adds(s1, neighbor(p, 1), w, h);
        lemma_look_adds(s2, neighbor(p, 2), w, h);
        lemma_look_adds(s3, neighbor(p, 3), w, h);
        assert(next == s4);
        assert forall|j: int| progress.queue.len() <= j < next.queue.len() implies adjacent(
            p,
            #[trigger] next.queue[j],
        ) by {
            if j < s1.queue.len() {
                assert(s4.queue[j] == s1.queue[j]);
                assert(s1.queue[j] == (neighbor(p, 0).0 as u32, neighbor(p, 0).1 as u32));
            } else if j < s2.queue.len() {
                assert(s4.queue[j] == s2.queue[j]);
                assert(s2.queue[j] == (neighbor(p, 1).0 as u32, neighbor(p, 1).1 as u32));
            } else if j < s3.queue.len() {
                assert(s4.queue[j] == s3.queue[j]);
                assert(s3.queue[j] == (neighbor(p, 2).0 as u32, neighbor(p, 2).1 as u32));
            } else {
                assert(s4.queue[j] == (neighbor(p, 3).0 as u32, neighbor(p, 3).1 as u32));
            }
        }
    }
}

/// A path that ends at a pixel goes on to any neighbour of that pixel that
/// lies on the layer and has the colour.
pub proof fn lemma_path_extends(
    layer: LayerView,
    target: Color,
    seed: (u32, u32),
    p: (u32, u32),
    q: (u32, u32),
)
    requires
        connected(layer, target, seed, p),
        adjacent(p, q),
        on_image((q.0 as int, q.1 as int), layer.width, layer.height),
        layer.pixel(q.0 as int, q.1 as int) == target,
    ensures
        connected(layer, target, seed, q),
{
    let path = choose|path: Seq<(u32, u32)>| #[trigger]
        is_path(layer, target, path) && path[0] == seed && path.last() == p;
    let longer = path.push(q);
    assert forall|i: int| 0 <= i < longer.len() implies on_image(
        ((#[trigger] longer[i]).0 as int, longer[i].1 as int),
        layer.width,
        layer.height,
    ) && layer.pixel(longer[i].0 as int, longer[i].1 as int) == target by {
        if i < path.len() {
            assert(longer[i] == path[i]);
        }
    }
    assert forall|i: int| 0 <= i < longer.len() - 1 implies adjacent(
        #[trigger] longer[i],
        longer[i + 1],
    ) by {
        if i < path.len() - 1 {
            assert(longer[i] == path[i] && longer[i + 1] == path[i + 1]);
            assert(adjacent(path[i], path[i + 1]));
        }
    }
    assert(is_path(layer, target, longer) && longer[0] == seed && longer.last() == q);
}

/// A step of a fill that has gone the right way goes the right way.
pub proof fn lemma_step_reaches(
    layer: LayerView,
    target: Color,
    seed: (u32, u32),
    progress: FillProgress,
    head: int,
)
    requires
        0 <= head,
        on_image((seed.0 as int, seed.1 as int), layer.width, layer.height),
        layer.pixel(seed.0 as int, seed.1 as int) == target,
        progress.queue.len() > 0,
        progress.queue[0] == seed,
        found_in_order(progress, layer.width, layer.height),
        filled_in_order(layer, target, progress, head),
        reaches(layer, target, seed, progress, head),
    ensures
        reaches(layer, target, seed, progress.step(layer, target, head), head + 1),
{
    let next = progress.step(layer, target, head);
    lemma_step(layer, target, progress, head);
    lemma_step_adds(layer, target, progress, head);
    let taken = head < progress.queue.len() && layer.pixel(
        progress.queue[head].0 as int,
        progress.queue[head].1 as int,
    ) == target;
    assert forall|k: int| 0 <= k < next.filled.len() implies connected(
        layer,
        target,
        seed,
        #[trigger] next.filled[k],
    ) by {
        if k < progress.filled.len() {
            assert(next.filled[k] == progress.filled[k]);
        } else {
            let p = progress.queue[head];
            assert(next.filled[k] == p);
            if head == 0 {
                let path = seq![seed];
                assert(is_path(layer, target, path) && path[0] == seed && path.last() == p);
            } else {
                assert(beside(progress.filled, progress.queue[head]));
                let i = choose|i: int|
                    0 <= i < progress.filled.len() && adjacent(#[trigger] progress.filled[i], p);
                assert(connected(layer, target, seed, progress.filled[i]));
                lemma_path_extends(layer, target, seed, progress.filled[i], p);
            }
        }
    }
    assert forall|j: int| 0 < j < next.queue.len() implies beside(
        next.filled,
        #[trigger] next.queue[j],
    ) by {
        if j < progress.queue.len() {
            assert(next.queue[j] == progress.queue[j]);
            assert(beside(progress.filled, progress.queue[j]));
            let i = choose|i: int|
                0 <= i < progress.filled.len() && adjacent(
                    #[trigger] progress.filled[i],
                    progress.queue[j],
                );
            assert(next.filled[i] == progress.filled[i]);
            assert(adjacent(next.filled[i], next.queue[j]));
        } else {
            let last = progress.filled.len() as int;
            assert(next.filled[last] == progress.queue[head]);
            assert(adjacent(next.filled[last], next.queue[j]));
        }
    }
    assert forall|j: int, d: int|
        0 <= j < head + 1 && j < next.queue.len() && 0 <= d < 4 && layer.pixel(
            next.queue[j].0 as int,
            next.queue[j].1 as int,
        ) == target && on_image(
            neighbor(next.queue[j], d),
            layer.width,
            layer.height,
        ) implies next.visited.contains(
        ((#[trigger] neighbor(next.queue[j], d)).0 as u32, neighbor(next.queue[j], d).1 as u32),
    ) by {
        if j < progress.queue.len() {
            assert(next.queue[j] == progress.queue[j]);
            if j < head {
                assert(progress.visited.contains(
                    (
                        neighbor(progress.queue[j], d).0 as u32,
                        neighbor(progress.queue[j], d).1 as u32,
                    ),
                ));
            }
        }
    }
}

/// A fill from a seed goes the right way from beginning to end.
pub proof fn lemma_fill_reaches(layer: LayerView, seed: (u32, u32), steps: nat)
    requires
        on_image((seed.0 as int, seed.1 as int), layer.width, layer.height),
    ensures
        reaches(
            layer,
            layer.pixel(seed.0 as int, seed.1 as int),
            seed,
            fill_after(layer, layer.pixel(seed.0 as int, seed.1 as int), seed, steps),
            steps as int,
        ),
    decreases steps,
{
    let target = layer.pixel(seed.0 as int, seed.1 as int);
    if steps > 0 {
        let before = fill_after(layer, target, seed, (steps - 1) as nat);
        lemma_fill_reaches(layer, seed, (steps - 1) as nat);
        lemma_fill_in_order(layer, target, seed, (steps - 1) as nat);
        lemma_step_reaches(layer, target, seed, before, steps - 1);
    }
}

/// A list of pixels on an image that holds none twice is no longer than
/// the image has pixels.
pub proof fn lemma_pixels_bounded(pixels: Seq<(u32, u32)>, width: u32, height: u32)
    requires
        pixels.no_duplicates(),
        forall|j: int|
            0 <= j < pixels.len() ==> on_image(
                ((#[trigger] pixels[j]).0 as int, pixels[j].1 as int),
                width,
                height,
            ),
    ensures
        pixels.len() <= width * height,
{
    let cells = Seq::new(pixels.len(), |j: int| pixels[j].1 * width + pixels[j].0);
    assert forall|i: int, j: int|
        0 <= i < cells.len() && 0 <= j < cells.len() && i != j implies cells[i] != cells[j] by {
        if cells[i] == cells[j] {
            lemma_cell_injective(
                pixels[i].0 as int,
                pixels[i].1 as int,
                pixels[j].0 as int,
                pixels[j].1 as int,
                width as int,
            );
        }
    }
    cells.unique_seq_to_set();
    assert(0 <= width * height) by (nonlinear_arith);
    vstd::set_lib::lemma_int_range(0, width * height);
    assert(cells.to_set().subset_of(vstd::set_lib::set_int_range(0, width * height))) by {
        assert forall|c: int| cells.to_set().contains(c) implies vstd::set_lib::set_int_range(
            0,
            width * height,
        ).contains(c) by {
            let j = choose|j: int| 0 <= j < cells.len() && cells[j] == c;
            lemma_cell_bound(
                pixels[j].0 as int,
                pixels[j].1 as int,
                width as int,
                height as int,
            );
        }
    }
    vstd::set_lib::lemma_len_subset(
        cells.to_set(),
        vstd::set_lib::set_int_range(0, width * height),
    );
}

/// Once a fill is finished, every pixel joined to the seed is filled.
pub proof fn lemma_region_filled(
    layer: LayerView,
    seed: (u32, u32),
    progress: FillProgress,
    head: int,
    path: Seq<(u32, u32)>,
)
    requires
        progress.queue.len() > 0,
        progress.queue[0] == seed,
        progress.queue.len() <= head,
        found_in_order(progress, layer.width, layer.height),
        filled_in_order(layer, layer.pixel(seed.0 as int, seed.1 as int), progress, head),
        reaches(layer, layer.pixel(seed.0 as int, seed.1 as int), seed, progress, head),
        is_path(layer, layer.pixel(seed.0 as int, seed.1 as int), path),
        path[0] == seed,
    ensures
        progress.filled.contains(path.last()),
    decreases path.len(),
{
    let target = layer.pixel(seed.0 as int, seed.1 as int);
    if path.len() == 1 {
        assert(progress.filled.contains(progress.queue[0]));
    } else {
        let shorter = path.drop_last();
        assert(is_path(layer, target, shorter)) by {
            assert forall|i: int| 0 <= i < shorter.len() implies on_image(
                ((#[trigger] shorter[i]).0 as int, shorter[i].1 as int),
                layer.width,
                layer.height,
            ) && layer.pixel(shorter[i].0 as int, shorter[i].1 as int) == target by {
                assert(shorter[i] == path[i]);
            }
            assert forall|i: int| 0 <= i < shorter.len() - 1 implies adjacent(
                #[trigger] shorter[i],
                shorter[i + 1],
            ) by {
                assert(shorter[i] == path[i] && shorter[i + 1] == path[i + 1]);
                assert(adjacent(path[i], path[i + 1]));
            }
        }
        lemma_region_filled(layer, seed, progress, head, shorter);
        let r = shorter.last();
        let p = path.last();
        assert(r == path[path.len() - 2]);
        assert(adjacent(path[path.len() - 2], path[path.len() - 1]));
        let k = choose|k: int| 0 <= k < progress.filled.len() && progress.filled[k] == r;
        assert(taken_before(progress.queue, head, progress.filled[k]));
        let j = choose|j: int|
            0 <= j < head && j < progress.queue.len() && #[trigger] progress.queue[j] == r;
        let d: int = if p.0 + 1 == r.0 {
            0
        } else if r.0 + 1 == p.0 {
            1
        } else if p.1 + 1 == r.1 {
            2
        } else {
            3
        };
        assert(neighbor(progress.queue[j], d) == (p.0 as int, p.1 as int));
        assert(on_image(neighbor(progress.queue[j], d), layer.width, layer.height));
        assert(layer.pixel(progress.queue[j].0 as int, progress.queue[j].1 as int) == target);
        assert(progress.visited.contains(
            (
                neighbor(progress.queue[j], d).0 as u32,
                neighbor(progress.queue[j], d).1 as u32,
            ),
        ));
        assert(progress.visited.contains(p));
        assert(progress.queue.contains(p));
        let m = choose|m: int| 0 <= m < progress.queue.len() && progress.queue[m] == p;
        assert(layer.pixel(progress.queue[m].0 as int, progress.queue[m].1 as int) == target);
        assert(progress.filled.contains(progress.queue[m]));
    }
}

/// A fill fills the seed's region and nothing else: the pixels it fills,
/// each once, are exactly the pixels of the seed's colour that a path of
/// that colour joins to the seed, however many more pixels of the colour
/// lie elsewhere on the layer.
pub proof fn lemma_fill_covers_region(layer: LayerView, seed: (u32, u32))
    requires
        on_image((seed.0 as int, seed.1 as int), layer.width, layer.height),
    ensures
        fill_positions(layer, seed).no_duplicates(),
        forall|p: (u32, u32)|
            #![trigger fill_positions(layer, seed).contains(p)]
            #![trigger in_region(layer, seed, p)]
            fill_positions(layer, seed).contains(p) <==> in_region(layer, seed, p),
{
    let target = layer.pixel(seed.0 as int, seed.1 as int);
    let area = (layer.width * layer.height) as nat;
    let done = fill_after(layer, target, seed, area);
    assert(0 <= layer.width * layer.height) by (nonlinear_arith);
    lemma_fill_in_order(layer, target, seed, area);
    lemma_fill_reaches(layer, seed, area);
    lemma_pixels_bounded(done.queue, layer.width, layer.height);
    assert forall|p: (u32, u32)|
        #![trigger fill_positions(layer, seed).contains(p)]
        #![trigger in_region(layer, seed, p)]
        fill_positions(layer, seed).contains(p) <==> in_region(layer, seed, p) by {
        if done.filled.contains(p) {
            let k = choose|k: int| 0 <= k < done.filled.len() && done.filled[k] == p;
            assert(connected(layer, target, seed, done.filled[k]));
        }
        if in_region(layer, seed, p) {
            let path = choose|path: Seq<(u32, u32)>| #[trigger]
                is_path(layer, target, path) && path[0] == seed && path.last() == p;
            lemma_region_filled(layer, seed, done, area as int, path);
        }
    }
}

/// After a fill, every pixel of the seed's region has the primary colour on
/// the active layer, and every other pixel of that layer is as it was; the
/// other layers are untouched.
pub proof fn lemma_fill_paints_region(state: EditorStateView, x: u32, y: u32, p: (u32, u32))
    requires
        state.wf(),
        state.in_bounds(x as int, y as int),
        state.active_layer().pixel(x as int, y as int) != state.primary_color,
        state.in_bounds(p.0 as int, p.1 as int),
    ensures
        state.fill(x, y).active_layer().pixel(p.0 as int, p.1 as int) == if in_region(
            state.active_layer(),
            (x, y),
            p,
        ) {
            state.primary_color
        } else {
            state.active_layer().pixel(p.0 as int, p.1 as int)
        },
        forall|i: int|
            0 <= i < state.layers.len() && i != state.active_layer_index ==> state.fill(
                x,
                y,
            ).layers[i] == state.layers[i],
{
    let layer = state.active_layer();
    let changes = state.fill_changes(x, y);
    let positions = fill_positions(layer, (x, y));
    assert(layer_fits(
        state.layers[state.active_layer_index as int],
        state.canvas_width,
        state.canvas_height,
    ));
    lemma_fill_covers_region(layer, (x, y));
    assert(change_positions(changes) =~= positions);
    crate::commands::lemma_apply_changes_pixel(layer, changes, true, p.0 as int, p.1 as int);
    layer.lemma_holds(p.0 as int, p.1 as int);
    if in_region(layer, (x, y), p) {
        assert(positions.contains(p));
        let k = choose|k: int| 0 <= k < positions.len() && positions[k] == p;
        assert(changes[k].0 == p.0 && changes[k].1 == p.1);
    } else {
        assert forall|k: int| 0 <= k < changes.len() implies !((#[trigger] changes[k]).0 == p.0
            && changes[k].1 == p.1) by {
            if changes[k].0 == p.0 && changes[k].1 == p.1 {
                assert(positions[k] == p);
                assert(positions.contains(p));
            }
        }
    }
}

} // verus!

//! The selection rectangle, in whole canvas pixels.

use vstd::prelude::*;

verus! {

/// A rectangle on the canvas, given by its origin and its extent. While a
/// selection is dragged the extent runs from where the drag began to the
/// pointer and may be negative; `normalized` turns that into an origin at
/// the top left and an extent that is not negative.
#[derive(Debug, Clone, Copy, PartialEq, Eq, Structural)]
pub struct Selection {
    pub x: i64,
    pub y: i64,
    pub width: i64,
    pub height: i64,
}

/// The absolute value of an integer.
pub open spec fn int_abs(v: int) -> int {
    if v < 0 {
        -v
    } else {
        v
    }
}

/// A coordinate brought into `[0, limit]`.
pub open spec fn clamp_coordinate(value: int, limit: u32) -> int {
    if value <= 0 {
        0
    } else if value >= limit {
        limit as int
    } else {
        value
    }
}

impl Selection {
    /// Both corners of the rectangle are positions that a pointer or a
    /// pixel can have: their coordinates fit in 32 bits, signed or not.
    pub open spec fn wf(self) -> bool {
        &&& i32::MIN <= self.x <= u32::MAX
        &&& i32::MIN <= self.y <= u32::MAX
        &&& i32::MIN <= self.x + self.width <= u32::MAX
        &&& i32::MIN <= self.y + self.height <= u32::MAX
    }

    /// The empty rectangle at a position, as a drag starts with.
    pub open spec fn at(x: int, y: int) -> Selection {
        Selection { x: x as i64, y: y as i64, width: 0, height: 0 }
    }

    /// The rectangle with its far corner dragged to a position; the origin
    /// stays, so the extents may become negative.
    pub open spec fn dragged_to(self, x: i32, y: i32) -> Selection {
        Selection { width: (x - self.x) as i64, height: (y - self.y) as i64, ..self }
    }

    /// The same rectangle with extents that are not negative: where an
    /// extent was negative the origin moves by it and the extent changes sign.
    pub open spec fn normalized(self) -> Selection {
        Selection {
            x: if self.width < 0 {
                (self.x + self.width) as i64
            } else {
                self.x
            },
            y: if self.height < 0 {
                (self.y + self.height) as i64
            } else {
                self.y
            },
            width: int_abs(self.width as int) as i64,
            height: int_abs(self.height as int) as i64,
        }
    }

    /// The first column of the rectangle that lies on a canvas of the given width.
    pub open spec fn start_x(self, canvas_width: u32) -> int {
        clamp_coordinate(self.x as int, canvas_width)
    }

    /// The first row of the rectangle that lies on a canvas of the given height.
    pub open spec fn start_y(self, canvas_height: u32) -> int {
        clamp_coordinate(self.y as int, canvas_height)
    }

    /// The column behind the last one of the rectangle on the canvas.
    pub open spec fn end_x(self, canvas_width: u32) -> int {
        clamp_coordinate(self.x + self.width, canvas_width)
    }

    /// The row behind the last one of the rectangle on the canvas.
    pub open spec fn end_y(self, canvas_height: u32) -> int {
        clamp_coordinate(self.y + self.height, canvas_height)
    }

    /// Whether any pixel of the canvas lies in the rectangle. A rectangle
    /// with a negative extent holds none.
    pub open spec fn covers_any(self, canvas_width: u32, canvas_height: u32) -> bool {
        self.start_x(canvas_width) < self.end_x(canvas_width) && self.start_y(canvas_height)
            < self.end_y(canvas_height)
    }

    /// The empty rectangle at a position.
    pub fn new(x: i32, y: i32) -> (selection: Selection)
        ensures
            selection == Selection::at(x as int, y as int),
            selection.wf(),
    {
        Selection { x: x as i64, y: y as i64, width: 0, height: 0 }
    }

    /// The empty rectangle at a pixel.
    pub fn at_pixel(x: u32, y: u32) -> (selection: Selection)
        ensures
            selection == Selection::at(x as int, y as int),
            selection.wf(),
    {
        Selection { x: x as i64, y: y as i64, width: 0, height: 0 }
    }

    /// Moves the far corner to a position and keeps the origin.
    pub fn drag_to(&mut self, x: i32, y: i32)
        requires
            old(self).wf(),
        ensures
            *final(self) == old(self).dragged_to(x, y),
            final(self).wf(),
    {
        self.width = x as i64 - self.x;
        self.height = y as i64 - self.y;
    }

    /// Makes both extents non-negative without moving the rectangle.
    pub fn normalize(&mut self)
        requires
            old(self).wf(),
        ensures
            *final(self) == old(self).normalized(),
            final(self).wf(),
            final(self).width >= 0,
            final(self).height >= 0,
    {
        if self.width < 0 {
            self.x = self.x + self.width;
            self.width = -self.width;
        }
        if self.height < 0 {
            self.y = self.y + self.height;
            self.height = -self.height;
        }
    }

    /// The part of the rectangle that lies on the canvas, as
    /// `(start_x, start_y, end_x, end_y)` with the ends exclusive.
    pub fn clamped(&self, canvas_width: u32, canvas_height: u32) -> (bounds: (u32, u32, u32, u32))
        ensures
            bounds.0 == self.start_x(canvas_width),
            bounds.1 == self.start_y(canvas_height),
            bounds.2 == self.end_x(canvas_width),
            bounds.3 == self.end_y(canvas_height),
    {
        (
            clamp_to(self.x, 0, canvas_width),
            clamp_to(self.y, 0, canvas_height),
            clamp_to(self.x, self.width, canvas_width),
            clamp_to(self.y, self.height, canvas_height),
        )
    }
}

/// `base + extent` brought into `[0, limit]`.
fn clamp_to(base: i64, extent: i64, limit: u32) -> (r: u32)
    ensures
        r == clamp_coordinate(base + extent, limit),
{
    match base.checked_add(extent) {
        Some(value) => {
            if value <= 0 {
                0
            } else if value >= limit as i64 {
                limit
            } else {
                value as u32
            }
        },
        None => {
            if base > 0 {
                limit
            } else {
                0
            }
        },
    }
}

/// A drag from one point to another, let go, selects the rectangle between
/// the two: its origin is the smaller of each pair of coordinates and its
/// extents are their distances.
pub proof fn lemma_drag_normalizes(x0: i32, y0: i32, x1: i32, y1: i32)
    ensures
        Selection::at(x0 as int, y0 as int).dragged_to(x1, y1).normalized() == (Selection {
            x: (if x0 <= x1 {
                x0
            } else {
                x1
            }) as i64,
            y: (if y0 <= y1 {
                y0
            } else {
                y1
            }) as i64,
            width: int_abs(x1 - x0) as i64,
            height: int_abs(y1 - y0) as i64,
        }),
{
}

} // verus!

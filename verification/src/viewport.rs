//! The terminal viewport: its size, its centre, and the extent in cells that
//! the chain may take at full stretch.

use vstd::prelude::*;
use crate::paint::{Cell, Point};

verus! {

/// The size of the terminal in cells and the margin kept free around the
/// drawing. Centre and extent are derived from these on demand, so that no
/// stale value can outlive a change of size.
#[derive(Clone, Copy, Debug, PartialEq, Eq, Structural)]
pub struct Viewport {
    pub width: u16,
    pub height: u16,
    pub margin: u16,
}

impl Viewport {
    /// The cell in the middle of the terminal.
    pub open spec fn center_point(self) -> Point {
        (self.width as int / 2, self.height as int / 2)
    }

    /// The span that limits the drawing. A cell is about twice as tall as it
    /// is wide, so the width counts half.
    pub open spec fn limiting_span(self) -> int {
        if self.width as int / 2 < self.height as int {
            self.width as int / 2
        } else {
            self.height as int
        }
    }

    /// The number of cells that the chain's full length is scaled to: the
    /// limiting span, less the margin on both sides. It is negative where the
    /// margins leave no room.
    pub open spec fn extent(self) -> int {
        self.limiting_span() - 2 * (self.margin as int)
    }

    /// Whether the point lies on the terminal.
    pub open spec fn holds(self, point: Point) -> bool {
        0 <= point.0 < self.width as int && 0 <= point.1 < self.height as int
    }

    /// The point at the given offset from the centre.
    pub open spec fn placed(self, offset: Point) -> Point {
        (self.center_point().0 + offset.0, self.center_point().1 + offset.1)
    }

    /// The viewport of a terminal of the given size.
    pub fn new(width: u16, height: u16, margin: u16) -> (viewport: Viewport)
        ensures
            viewport == (Viewport { width, height, margin }),
    {
        Viewport { width, height, margin }
    }

    /// The viewport after the terminal has taken a new size. The margin stays.
    pub fn resized(&self, width: u16, height: u16) -> (viewport: Viewport)
        ensures
            viewport == (Viewport { width, height, margin: self.margin }),
    {
        Viewport { width, height, margin: self.margin }
    }

    /// The cell in the middle of the terminal: half the width and half the
    /// height, rounded down.
    pub fn center(&self) -> (cell: Cell)
        ensures
            cell@ == self.center_point(),
    {
        Cell { col: (self.width / 2) as i32, row: (self.height / 2) as i32 }
    }

    /// The number of cells that the chain's full length is scaled to.
    pub fn render_extent(&self) -> (extent: i32)
        ensures
            extent == self.extent(),
    {
        let half_width: i32 = (self.width / 2) as i32;
        let height: i32 = self.height as i32;
        let span: i32 = if half_width < height { half_width } else { height };
        span - 2 * (self.margin as i32)
    }

    /// Whether the cell lies on the terminal. Paints elsewhere are dropped.
    pub fn contains(&self, cell: Cell) -> (inside: bool)
        ensures
            inside == self.holds(cell@),
    {
        0 <= cell.col && cell.col < self.width as i32 && 0 <= cell.row && cell.row
            < self.height as i32
    }

    /// The cell at the given offset from the centre. The result is not
    /// clamped to the terminal.
    pub fn cell_at(&self, dx: i16, dy: i16) -> (cell: Cell)
        ensures
            cell@ == self.placed((dx as int, dy as int)),
    {
        let center = self.center();
        Cell { col: center.col + dx as i32, row: center.row + dy as i32 }
    }
}

} // verus!

//! Terminal cells, paint styles and paint operations, with their
//! mathematical views.

use vstd::prelude::*;

verus! {

/// A point of the unbounded integer cell plane: `(column, row)`.
pub type Point = (int, int);

/// A paint operation over the unbounded cell plane.
pub struct Paint {
    pub at: Point,
    pub style: Style,
}

/// A terminal cell. Coordinates are signed so that positions left of or above
/// the terminal, which are valid but invisible, can be represented.
#[derive(Clone, Copy, Debug, PartialEq, Eq, Structural)]
pub struct Cell {
    pub col: i32,
    pub row: i32,
}

/// How a painted cell is styled.
#[derive(Clone, Copy, Debug, PartialEq, Eq, Structural)]
pub enum Style {
    /// A segment that connects two joints.
    Segment,
    /// The marker of a joint that is not selected.
    Normal,
    /// The marker of the selected joint.
    Highlighted,
}

/// One request to paint a cell in a style.
#[derive(Clone, Copy, Debug, PartialEq, Eq, Structural)]
pub struct PaintOp {
    pub cell: Cell,
    pub style: Style,
}

impl View for Cell {
    type V = Point;

    open spec fn view(&self) -> Point {
        (self.col as int, self.row as int)
    }
}

impl View for PaintOp {
    type V = Paint;

    open spec fn view(&self) -> Paint {
        Paint { at: self.cell@, style: self.style }
    }
}

/// The paints that a sequence of operations stands for, in order.
pub open spec fn paints(ops: Seq<PaintOp>) -> Seq<Paint> {
    Seq::new(ops.len(), |i: int| ops[i]@)
}

/// The points that a sequence of cells stands for, in order.
pub open spec fn cell_points(cells: Seq<Cell>) -> Seq<Point> {
    Seq::new(cells.len(), |i: int| cells[i]@)
}

/// Paints the points of `points`, in order, all in `style`.
pub open spec fn styled(points: Seq<Point>, style: Style) -> Seq<Paint> {
    Seq::new(points.len(), |i: int| Paint { at: points[i], style })
}

/// Appending one operation appends its paint.
pub proof fn lemma_paints_push(ops: Seq<PaintOp>, op: PaintOp)
    ensures
        paints(ops.push(op)) == paints(ops).push(op@),
{
    assert(paints(ops.push(op)) =~= paints(ops).push(op@));
}

/// Emits one paint operation into the sink.
pub fn paint(sink: &mut Vec<PaintOp>, cell: Cell, style: Style)
    ensures
        paints(final(sink)@) == paints(old(sink)@).push(Paint { at: cell@, style }),
{
    proof {
        lemma_paints_push(sink@, PaintOp { cell, style });
    }
    sink.push(PaintOp { cell, style });
}

} // verus!

//! Circle outlines by the midpoint method.
//!
//! One octant of the circle is walked with an integer decision value; every
//! offset of the walk is mirrored across both axes and the diagonal. Small
//! radii give sparse outlines: a radius of 0 paints the centre alone, a
//! radius of 1 the four cells next to it. No radius is special-cased.

use vstd::prelude::*;
use crate::paint::{paint, paints, styled, Cell, PaintOp, Point, Style};

verus! {

/// The state of the octant walk: the offset `(x, y)` from the centre, with
/// `x` the coordinate that advances and `y` the one that shrinks, and the
/// decision value `p`.
pub struct Walk {
    pub x: int,
    pub y: int,
    pub p: int,
}

impl Walk {
    /// The walk starts straight below the centre, at the distance of the
    /// radius.
    pub open spec fn start(radius: int) -> Walk {
        Walk { x: 0, y: radius, p: 3 - 2 * radius }
    }

    /// `x` always advances; `y` shrinks where the decision value is positive.
    pub open spec fn next(self) -> Walk {
        let x = self.x + 1;
        if self.p > 0 {
            let y = self.y - 1;
            Walk { x, y, p: self.p + 4 * (x - y) + 10 }
        } else {
            Walk { x, y: self.y, p: self.p + 4 * x + 6 }
        }
    }

    /// The walk ends where it has crossed the diagonal.
    pub open spec fn done(self) -> bool {
        self.x > self.y
    }

    /// The state that `steps` steps lead to.
    pub open spec fn nth(self, steps: nat) -> Walk
        decreases steps,
    {
        if steps == 0 {
            self
        } else {
            self.next().nth((steps - 1) as nat)
        }
    }

    /// The decision value in closed form, for the offset `(x, y)` on the walk
    /// of a circle of the given radius.
    pub open spec fn decision(radius: int, x: int, y: int) -> int {
        2 * (x * x) + 8 * x + 2 * (y * y) - 6 * y + 3 + 4 * radius - 2 * (radius * radius)
    }
}

/// The eight images of the offset `(x, y)` around `center`, in painting order.
pub open spec fn mirrored(center: Point, x: int, y: int) -> Seq<Point> {
    seq![
        (center.0 + x, center.1 + y),
        (center.0 - x, center.1 + y),
        (center.0 + x, center.1 - y),
        (center.0 - x, center.1 - y),
        (center.0 + y, center.1 + x),
        (center.0 - y, center.1 + x),
        (center.0 + y, center.1 - x),
        (center.0 - y, center.1 - x),
    ]
}

/// The cells painted from the state `walk` on, in order.
pub open spec fn walk_points(center: Point, walk: Walk) -> Seq<Point>
    decreases walk.y - walk.x + 2,
{
    if walk.done() {
        Seq::empty()
    } else {
        mirrored(center, walk.x, walk.y) + walk_points(center, walk.next())
    }
}

/// The cells painted for the circle of the given radius around `center`, in
/// order. A cell that is its own mirror image occurs more than once.
pub open spec fn circle_points(center: Point, radius: int) -> Seq<Point> {
    walk_points(center, Walk::start(radius))
}

/// A circle around `center` with this radius stays within the cell type.
pub open spec fn circle_fits(center: Point, radius: int) -> bool {
    &&& i32::MIN <= center.0 - radius
    &&& center.0 + radius <= i32::MAX
    &&& i32::MIN <= center.1 - radius
    &&& center.1 + radius <= i32::MAX
}

proof fn lemma_styled_add(first: Seq<Point>, second: Seq<Point>, style: Style)
    ensures
        styled(first + second, style) == styled(first, style) + styled(second, style),
{
    assert(styled(first + second, style) =~= styled(first, style) + styled(second, style));
}

/// Along the walk the decision value is a fixed quadratic in the offset and
/// the radius. `x` counts the steps, and `y` has shrunk by one per step at
/// most.
pub proof fn lemma_walk_decision(radius: int, steps: nat)
    ensures
        ({
            let walk = Walk::start(radius).nth(steps);
            &&& walk.x == steps
            &&& radius - steps <= walk.y <= radius
            &&& walk.p == Walk::decision(radius, walk.x, walk.y)
        }),
{
    lemma_nth_decision(radius, Walk::start(radius), steps);
}

proof fn lemma_nth_decision(radius: int, walk: Walk, steps: nat)
    requires
        walk.p == Walk::decision(radius, walk.x, walk.y),
    ensures
        ({
            let end = walk.nth(steps);
            &&& end.x == walk.x + steps
            &&& walk.y - steps <= end.y <= walk.y
            &&& end.p == Walk::decision(radius, end.x, end.y)
        }),
    decreases steps,
{
    if steps > 0 {
        let next = walk.next();
        assert(next.p == Walk::decision(radius, next.x, next.y)) by (nonlinear_arith)
            requires
                walk.p == Walk::decision(radius, walk.x, walk.y),
                next == walk.next(),
        ;
        lemma_nth_decision(radius, next, (steps - 1) as nat);
    }
}

/// The paints of a circle come in groups of eight: group `k` holds the eight
/// mirror images of the offset that the walk has reached after `k` steps.
pub proof fn lemma_circle_eightfold(center: Point, radius: int, k: int)
    requires
        0 <= k,
        8 * k < circle_points(center, radius).len(),
    ensures
        ({
            let walk = Walk::start(radius).nth(k as nat);
            &&& !walk.done()
            &&& circle_points(center, radius).subrange(8 * k, 8 * k + 8) == mirrored(
                center,
                walk.x,
                walk.y,
            )
        }),
{
    lemma_walk_eightfold(center, Walk::start(radius), k);
}

proof fn lemma_walk_eightfold(center: Point, walk: Walk, k: int)
    requires
        0 <= k,
        8 * k < walk_points(center, walk).len(),
    ensures
        !walk.nth(k as nat).done(),
        8 * k + 8 <= walk_points(center, walk).len(),
        walk_points(center, walk).subrange(8 * k, 8 * k + 8) == mirrored(
            center,
            walk.nth(k as nat).x,
            walk.nth(k as nat).y,
        ),
    decreases k,
{
    let eight = mirrored(center, walk.x, walk.y);
    let rest = walk_points(center, walk.next());
    if k == 0 {
        assert((eight + rest).subrange(0, 8) =~= eight);
    } else {
        lemma_walk_eightfold(center, walk.next(), k - 1);
        assert((eight + rest).subrange(8 * k, 8 * k + 8) =~= rest.subrange(
            8 * (k - 1),
            8 * (k - 1) + 8,
        ));
    }
}

/// No cell of a circle is farther from the centre than the radius, along
/// either axis.
pub proof fn lemma_circle_within_radius(center: Point, radius: int, i: int)
    requires
        0 <= i < circle_points(center, radius).len(),
    ensures
        center.0 - radius <= circle_points(center, radius)[i].0 <= center.0 + radius,
        center.1 - radius <= circle_points(center, radius)[i].1 <= center.1 + radius,
{
    lemma_walk_within_radius(center, Walk::start(radius), radius, i);
}

proof fn lemma_walk_within_radius(center: Point, walk: Walk, radius: int, i: int)
    requires
        0 <= walk.x,
        walk.y <= radius,
        0 <= i < walk_points(center, walk).len(),
    ensures
        center.0 - radius <= walk_points(center, walk)[i].0 <= center.0 + radius,
        center.1 - radius <= walk_points(center, walk)[i].1 <= center.1 + radius,
    decreases walk.y - walk.x + 2,
{
    if !walk.done() {
        if i >= 8 {
            lemma_walk_within_radius(center, walk.next(), radius, i - 8);
        }
    }
}

/// Draws the outline of the circle around `center` into the sink.
pub fn draw_circle(center: Cell, radius: u16, style: Style, sink: &mut Vec<PaintOp>)
    requires
        circle_fits(center@, radius as int),
    ensures
        paints(final(sink)@) == paints(old(sink)@) + styled(
            circle_points(center@, radius as int),
            style,
        ),
{
    let cx: i64 = center.col as i64;
    let cy: i64 = center.row as i64;
    let mut sx: i64 = 0;
    let mut sy: i64 = radius as i64;
    let mut p: i64 = 3 - 2 * (radius as i64);
    let ghost all = paints(sink@) + styled(circle_points(center@, radius as int), style);
    while sx <= sy
        invariant
            cx == center.col && cy == center.row,
            circle_fits(center@, radius as int),
            0 <= sx <= sy + 2,
            sy <= radius,
            -131072 - 262154 * sx <= p <= 3 + 262154 * sx,
            all == paints(sink@) + styled(
                walk_points(center@, Walk { x: sx as int, y: sy as int, p: p as int }),
                style,
            ),
        decreases sy - sx + 2,
    {
        let ghost walk = Walk { x: sx as int, y: sy as int, p: p as int };
        let ghost shown = paints(sink@);
        paint(sink, Cell { col: (cx + sx) as i32, row: (cy + sy) as i32 }, style);
        paint(sink, Cell { col: (cx - sx) as i32, row: (cy + sy) as i32 }, style);
        paint(sink, Cell { col: (cx + sx) as i32, row: (cy - sy) as i32 }, style);
        paint(sink, Cell { col: (cx - sx) as i32, row: (cy - sy) as i32 }, style);
        paint(sink, Cell { col: (cx + sy) as i32, row: (cy + sx) as i32 }, style);
        paint(sink, Cell { col: (cx - sy) as i32, row: (cy + sx) as i32 }, style);
        paint(sink, Cell { col: (cx + sy) as i32, row: (cy - sx) as i32 }, style);
        paint(sink, Cell { col: (cx - sy) as i32, row: (cy - sx) as i32 }, style);
        proof {
            let eight = mirrored(center@, walk.x, walk.y);
            assert(paints(sink@) =~= shown + styled(eight, style));
            lemma_styled_add(eight, walk_points(center@, walk.next()), style);
            assert(all =~= paints(sink@) + styled(walk_points(center@, walk.next()), style));
        }
        sx += 1;
        if p > 0 {
            sy -= 1;
            p += 4 * (sx - sy) + 10;
        } else {
            p += 4 * sx + 6;
        }
    }
}

} // verus!

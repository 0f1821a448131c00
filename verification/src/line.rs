//! Straight segments between two cells.
//!
//! The cells of a segment are given in closed form: the segment advances one
//! cell per step along its longer axis, and the other coordinate is the ideal
//! line rounded to the nearest cell, a tie going forward. The drawing routine
//! walks the segment with an integer error term and is proved to emit exactly
//! those cells.

use vstd::prelude::*;
use vstd::arithmetic::div_mod::lemma_fundamental_div_mod_converse;
use crate::paint::{paint, paints, styled, Cell, Paint, PaintOp, Point, Style};

verus! {

/// The distance between two coordinates.
pub open spec fn span(from: int, to: int) -> int {
    if from <= to {
        to - from
    } else {
        from - to
    }
}

/// The coordinate reached from `from` after `steps` unit steps towards `to`.
pub open spec fn advance(from: int, to: int, steps: int) -> int {
    if from < to {
        from + steps
    } else {
        from - steps
    }
}

/// The number of steps of the segment: the extent of its longer axis.
pub open spec fn line_steps(from: Point, to: Point) -> int {
    if span(from.0, to.0) >= span(from.1, to.1) {
        span(from.0, to.0)
    } else {
        span(from.1, to.1)
    }
}

/// How far the shorter axis has come after `k` steps along the longer one:
/// `k * minor / major`, rounded to the nearest integer, half rounding up.
pub open spec fn minor_progress(k: int, minor: int, major: int) -> int {
    if major == 0 {
        0
    } else {
        (2 * minor * k + major) / (2 * major)
    }
}

/// The cell of the segment after `k` steps.
pub open spec fn line_point(from: Point, to: Point, k: int) -> Point {
    let a = span(from.0, to.0);
    let b = span(from.1, to.1);
    if a >= b {
        (advance(from.0, to.0, k), advance(from.1, to.1, minor_progress(k, b, a)))
    } else {
        (advance(from.0, to.0, minor_progress(k, a, b)), advance(from.1, to.1, k))
    }
}

/// The cells of the segment, from `from` to `to`.
pub open spec fn line_points(from: Point, to: Point) -> Seq<Point> {
    Seq::new((line_steps(from, to) + 1) as nat, |k: int| line_point(from, to, k))
}

/// The state of a walk along a segment with extents `a` and `b`, after `k`
/// steps of which `i` went along x and `j` along y: the walk has advanced
/// every step along the longer axis, and is within half a cell of the ideal
/// line along the other.
spec fn on_track(a: int, b: int, i: int, j: int, k: int) -> bool {
    let d = a * j - b * i;
    if a >= b {
        &&& i == k
        &&& a == 0 ==> j == 0
        &&& a > 0 ==> -a < 2 * d <= a
    } else {
        &&& j == k
        &&& -b <= 2 * d < b
    }
}

proof fn lemma_round_unique(num: int, den: int, q: int)
    requires
        den > 0,
        den * q <= num < den * q + den,
    ensures
        num / den == q,
{
    assert(q * den == den * q) by (nonlinear_arith);
    lemma_fundamental_div_mod_converse(num, den, q, num - den * q);
}

/// A walk that is on track stands on the cell that the closed form gives.
proof fn lemma_on_track_progress(a: int, b: int, i: int, j: int, k: int)
    requires
        0 <= a,
        0 <= b,
        on_track(a, b, i, j, k),
    ensures
        a >= b ==> i == k && j == minor_progress(k, b, a),
        a < b ==> j == k && i == minor_progress(k, a, b),
{
    if a >= b {
        if a > 0 {
            assert((2 * a) * j == 2 * (a * j)) by (nonlinear_arith);
            assert(2 * b * k == 2 * (b * k)) by (nonlinear_arith);
            lemma_round_unique(2 * b * k + a, 2 * a, j);
        }
    } else {
        assert((2 * b) * i == 2 * (b * i)) by (nonlinear_arith);
        assert(2 * a * k == 2 * (a * k)) by (nonlinear_arith);
        lemma_round_unique(2 * a * k + b, 2 * b, i);
    }
}

/// After as many steps as the longer axis is long, the shorter axis has come
/// all its way.
proof fn lemma_minor_progress_full(minor: int, major: int)
    requires
        0 <= minor <= major,
    ensures
        minor_progress(major, minor, major) == minor,
        minor_progress(0, minor, major) == 0,
{
    if major > 0 {
        assert(2 * minor * major + major == (2 * major) * minor + major) by (nonlinear_arith);
        lemma_round_unique(2 * minor * major + major, 2 * major, minor);
        assert(2 * minor * 0 == 0) by (nonlinear_arith);
        lemma_round_unique(major, 2 * major, 0);
    }
}

/// The shorter axis never runs ahead of the longer one, and never back.
proof fn lemma_minor_progress_bounds(k: int, minor: int, major: int)
    requires
        0 <= minor <= major,
        0 <= k <= major,
    ensures
        0 <= minor_progress(k, minor, major) <= minor,
        minor_progress(k, minor, major) <= k,
{
    if major > 0 {
        let q = minor_progress(k, minor, major);
        let num = 2 * minor * k + major;
        let den = 2 * major;
        vstd::arithmetic::div_mod::lemma_fundamental_div_mod(num, den);
        vstd::arithmetic::div_mod::lemma_mod_bound(num, den);
        // den * q <= num < den * q + den
        assert(0 <= num) by (nonlinear_arith)
            requires
                num == 2 * minor * k + major,
                0 <= minor,
                0 <= k,
                0 <= major,
        ;
        assert(q >= 0) by (nonlinear_arith)
            requires
                den > 0,
                0 <= num,
                num < den * q + den,
        ;
        assert(num <= 2 * major * minor + major) by (nonlinear_arith)
            requires
                num == 2 * minor * k + major,
                0 <= minor,
                0 <= k <= major,
        ;
        assert(q <= minor) by (nonlinear_arith)
            requires
                den == 2 * major,
                major > 0,
                den * q <= num,
                num <= 2 * major * minor + major,
        ;
        assert(num <= 2 * major * k + major) by (nonlinear_arith)
            requires
                num == 2 * minor * k + major,
                0 <= minor <= major,
                0 <= k,
        ;
        assert(q <= k) by (nonlinear_arith)
            requires
                den == 2 * major,
                major > 0,
                den * q <= num,
                num <= 2 * major * k + major,
        ;
    }
}

/// From one step to the next the shorter axis stays or advances by one.
proof fn lemma_minor_progress_step(k: int, minor: int, major: int)
    requires
        0 <= minor <= major,
        0 <= k < major,
    ensures
        minor_progress(k, minor, major) <= minor_progress(k + 1, minor, major)
            <= minor_progress(k, minor, major) + 1,
{
    let q = minor_progress(k, minor, major);
    let num = 2 * minor * k + major;
    let next = 2 * minor * (k + 1) + major;
    let den = 2 * major;
    vstd::arithmetic::div_mod::lemma_fundamental_div_mod(num, den);
    vstd::arithmetic::div_mod::lemma_mod_bound(num, den);
    assert(next == num + 2 * minor) by (nonlinear_arith)
        requires
            num == 2 * minor * k + major,
            next == 2 * minor * (k + 1) + major,
    ;
    if next < den * q + den {
        lemma_round_unique(next, den, q);
    } else {
        assert(den * (q + 1) == den * q + den) by (nonlinear_arith);
        lemma_round_unique(next, den, q + 1);
    }
}

/// A segment starts at `from`, ends at `to`, and has one cell for each step
/// along its longer axis, and one more.
pub proof fn lemma_line_ends(from: Point, to: Point)
    ensures
        line_points(from, to).len() == line_steps(from, to) + 1,
        line_points(from, to).first() == from,
        line_points(from, to).last() == to,
{
    let a = span(from.0, to.0);
    let b = span(from.1, to.1);
    if a >= b {
        lemma_minor_progress_full(b, a);
    } else {
        lemma_minor_progress_full(a, b);
    }
}

/// Every cell of a segment lies in the rectangle that its two ends span.
pub proof fn lemma_line_within_box(from: Point, to: Point, k: int)
    requires
        0 <= k <= line_steps(from, to),
    ensures
        span(from.0, line_points(from, to)[k].0) + span(line_points(from, to)[k].0, to.0) == span(
            from.0,
            to.0,
        ),
        span(from.1, line_points(from, to)[k].1) + span(line_points(from, to)[k].1, to.1) == span(
            from.1,
            to.1,
        ),
{
    let a = span(from.0, to.0);
    let b = span(from.1, to.1);
    if a >= b {
        lemma_minor_progress_bounds(k, b, a);
    } else {
        lemma_minor_progress_bounds(k, a, b);
    }
}

/// Consecutive cells of a segment touch: from one to the next, the longer
/// axis advances by one cell and the other by one cell or not at all. So a
/// segment has no gap.
pub proof fn lemma_line_contiguous(from: Point, to: Point, k: int)
    requires
        0 <= k < line_steps(from, to),
    ensures
        ({
            let here = line_points(from, to)[k];
            let there = line_points(from, to)[k + 1];
            &&& span(here.0, there.0) <= 1
            &&& span(here.1, there.1) <= 1
            &&& span(here.0, there.0) == 1 || span(here.1, there.1) == 1
        }),
{
    let a = span(from.0, to.0);
    let b = span(from.1, to.1);
    if a >= b {
        lemma_minor_progress_step(k, b, a);
    } else {
        lemma_minor_progress_step(k, a, b);
    }
}

/// No cell of a segment is painted twice: the cells are pairwise distinct.
pub proof fn lemma_line_cells_distinct(from: Point, to: Point, i: int, j: int)
    requires
        0 <= i < j <= line_steps(from, to),
    ensures
        line_points(from, to)[i] != line_points(from, to)[j],
{
}

/// A segment within one row is the unbroken run of that row's cells between
/// its ends, and likewise within one column.
pub proof fn lemma_line_along_axis(from: Point, to: Point, k: int)
    requires
        0 <= k <= line_steps(from, to),
    ensures
        from.1 == to.1 ==> line_points(from, to)[k] == (advance(from.0, to.0, k), from.1),
        from.0 == to.0 ==> line_points(from, to)[k] == (from.0, advance(from.1, to.1, k)),
{
    let a = span(from.0, to.0);
    let b = span(from.1, to.1);
    if a >= b {
        lemma_minor_progress_bounds(k, b, a);
    } else {
        lemma_minor_progress_bounds(k, a, b);
    }
}

/// Every cell of a segment is the nearest one to the ideal line: measured
/// along the shorter axis it is off by half a cell at most.
pub proof fn lemma_line_near_ideal(from: Point, to: Point, k: int)
    requires
        0 <= k <= line_steps(from, to),
    ensures
        ({
            let cell = line_points(from, to)[k];
            let i = span(from.0, cell.0);
            let j = span(from.1, cell.1);
            let deviation = span(from.0, to.0) * j - span(from.1, to.1) * i;
            -line_steps(from, to) <= 2 * deviation <= line_steps(from, to)
        }),
{
    let a = span(from.0, to.0);
    let b = span(from.1, to.1);
    if a >= b {
        lemma_minor_progress_bounds(k, b, a);
        if a > 0 {
            let m = minor_progress(k, b, a);
            vstd::arithmetic::div_mod::lemma_fundamental_div_mod(2 * b * k + a, 2 * a);
            vstd::arithmetic::div_mod::lemma_mod_bound(2 * b * k + a, 2 * a);
            assert((2 * a) * m == 2 * (a * m)) by (nonlinear_arith);
            assert(2 * b * k == 2 * (b * k)) by (nonlinear_arith);
        } else {
            assert(a * 0 == 0 && b * 0 == 0) by (nonlinear_arith);
        }
    } else {
        lemma_minor_progress_bounds(k, a, b);
        let m = minor_progress(k, a, b);
        vstd::arithmetic::div_mod::lemma_fundamental_div_mod(2 * a * k + b, 2 * b);
        vstd::arithmetic::div_mod::lemma_mod_bound(2 * a * k + b, 2 * b);
        assert((2 * b) * m == 2 * (b * m)) by (nonlinear_arith);
        assert(2 * a * k == 2 * (a * k)) by (nonlinear_arith);
    }
}

/// One step of the walk keeps it on track. `d` is the deviation from the
/// ideal line, and `d + a - b` the error term that the walk carries: it steps
/// along x unless that would take it too far ahead along x, and likewise
/// along y.
proof fn lemma_on_track_step(a: int, b: int, i: int, j: int, k: int, d: int)
    requires
        0 <= a,
        0 <= b,
        d == a * j - b * i,
        on_track(a, b, i, j, k),
        0 <= k < a || 0 <= k < b,
    ensures
        ({
            let e = d + a - b;
            let i2 = if 2 * e >= -b { i + 1 } else { i };
            let j2 = if 2 * e <= a { j + 1 } else { j };
            let d2 = d + (if 2 * e <= a { a } else { 0 }) - (if 2 * e >= -b { b } else { 0 });
            &&& d2 == a * j2 - b * i2
            &&& on_track(a, b, i2, j2, k + 1)
        }),
{
    assert(a * (j + 1) == a * j + a) by (nonlinear_arith);
    assert(b * (i + 1) == b * i + b) by (nonlinear_arith);
}

/// Appending the next cell of a sequence to a styled prefix of it.
proof fn lemma_styled_take_next(points: Seq<Point>, style: Style, k: int)
    requires
        0 <= k < points.len(),
    ensures
        styled(points.take(k + 1), style) == styled(points.take(k), style).push(
            Paint { at: points[k], style },
        ),
{
    assert(styled(points.take(k + 1), style) =~= styled(points.take(k), style).push(
        Paint { at: points[k], style },
    ));
}

/// Draws the segment from `from` to `to` into the sink, one paint per cell,
/// starting with `from` and ending with `to`.
pub fn draw_line(from: Cell, to: Cell, style: Style, sink: &mut Vec<PaintOp>)
    ensures
        paints(final(sink)@) == paints(old(sink)@) + styled(line_points(from@, to@), style),
{
    let x1: i64 = from.col as i64;
    let y1: i64 = from.row as i64;
    let x2: i64 = to.col as i64;
    let y2: i64 = to.row as i64;
    let dx: i64 = if x1 < x2 { x2 - x1 } else { x1 - x2 };
    let sx: i64 = if x1 < x2 { 1 } else { -1 };
    let dy: i64 = if y1 < y2 { y1 - y2 } else { y2 - y1 };
    let sy: i64 = if y1 < y2 { 1 } else { -1 };
    let mut x: i64 = x1;
    let mut y: i64 = y1;
    let mut error: i64 = dx + dy;
    let ghost before = paints(sink@);
    let ghost points = line_points(from@, to@);
    let ghost a: int = dx as int;
    let ghost b: int = -dy as int;
    let ghost n: int = line_steps(from@, to@);
    let ghost mut i: int = 0;
    let ghost mut j: int = 0;
    let ghost mut k: int = 0;
    let ghost mut d: int = 0;
    proof {
        assert(a * 0 == 0 && b * 0 == 0) by (nonlinear_arith);
        assert(paints(sink@) =~= before + styled(points.take(0), style));
    }
    loop
        invariant_except_break
            paints(sink@) == before + styled(points.take(k), style),
        invariant
            x1 == from.col && y1 == from.row && x2 == to.col && y2 == to.row,
            a == span(x1 as int, x2 as int) && b == span(y1 as int, y2 as int),
            dx == a && dy == -b,
            sx == (if x1 < x2 { 1int } else { -1int }),
            sy == (if y1 < y2 { 1int } else { -1int }),
            n == line_steps(from@, to@),
            points == line_points(from@, to@),
            0 <= k <= n,
            d == a * j - b * i,
            on_track(a, b, i, j, k),
            x == advance(x1 as int, x2 as int, i),
            y == advance(y1 as int, y2 as int, j),
            error == d + a - b,
        ensures
            paints(sink@) == before + styled(points, style),
        decreases n - k,
    {
        proof {
            lemma_on_track_progress(a, b, i, j, k);
            if a >= b {
                lemma_minor_progress_bounds(k, b, a);
            } else {
                lemma_minor_progress_bounds(k, a, b);
            }
            lemma_styled_take_next(points, style, k);
        }
        paint(sink, Cell { col: x as i32, row: y as i32 }, style);
        if x == x2 && y == y2 {
            proof {
                assert(points.take(n + 1) =~= points);
            }
            break;
        }
        proof {
            if a >= b {
                lemma_minor_progress_full(b, a);
            } else {
                lemma_minor_progress_full(a, b);
            }
            lemma_on_track_step(a, b, i, j, k, d);
        }
        let e2: i64 = 2 * error;
        if e2 >= dy {
            error += dy;
            x += sx;
            proof {
                i = i + 1;
                d = d - b;
            }
        }
        if e2 <= dx {
            error += dx;
            y += sy;
            proof {
                j = j + 1;
                d = d + a;
            }
        }
        proof {
            k = k + 1;
        }
    }
}

} // verus!

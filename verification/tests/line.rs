use chain_pendulum::line::draw_line;
use chain_pendulum::paint::{Cell, PaintOp, Style};

fn cells(ops: &Vec<PaintOp>) -> Vec<(i32, i32)> {
    ops.iter().map(|op| (op.cell.col, op.cell.row)).collect()
}

fn line(from: (i32, i32), to: (i32, i32)) -> Vec<(i32, i32)> {
    let mut sink = Vec::new();
    draw_line(
        Cell { col: from.0, row: from.1 },
        Cell { col: to.0, row: to.1 },
        Style::Segment,
        &mut sink,
    );
    cells(&sink)
}

/// The textbook walk with a combined error term, guards included.
fn textbook(from: (i32, i32), to: (i32, i32)) -> Vec<(i32, i32)> {
    let (mut x1, mut y1) = (from.0 as i64, from.1 as i64);
    let (x2, y2) = (to.0 as i64, to.1 as i64);
    let dx = (x2 - x1).abs();
    let sx = if x1 < x2 { 1 } else { -1 };
    let dy = -(y2 - y1).abs();
    let sy = if y1 < y2 { 1 } else { -1 };
    let mut error = dx + dy;
    let mut out = Vec::new();
    loop {
        out.push((x1 as i32, y1 as i32));
        if x1 == x2 && y1 == y2 {
            break;
        }
        let e2 = 2 * error;
        if e2 >= dy {
            if x1 == x2 {
                break;
            }
            error += dy;
            x1 += sx;
        }
        if e2 <= dx {
            if y1 == y2 {
                break;
            }
            error += dx;
            y1 += sy;
        }
    }
    out
}

#[test]
fn degenerate_line_paints_one_cell() {
    assert_eq!(line((0, 0), (0, 0)), vec![(0, 0)]);
    assert_eq!(line((-7, 3), (-7, 3)), vec![(-7, 3)]);
}

#[test]
fn horizontal_line_paints_a_contiguous_run() {
    assert_eq!(line((0, 0), (5, 0)), vec![(0, 0), (1, 0), (2, 0), (3, 0), (4, 0), (5, 0)]);
}

#[test]
fn horizontal_line_backwards() {
    assert_eq!(line((5, 0), (0, 0)), vec![(5, 0), (4, 0), (3, 0), (2, 0), (1, 0), (0, 0)]);
}

#[test]
fn vertical_line_both_ways() {
    assert_eq!(line((2, -1), (2, 2)), vec![(2, -1), (2, 0), (2, 1), (2, 2)]);
    assert_eq!(line((2, 2), (2, -1)), vec![(2, 2), (2, 1), (2, 0), (2, -1)]);
}

#[test]
fn diagonal_line() {
    assert_eq!(line((0, 0), (3, 3)), vec![(0, 0), (1, 1), (2, 2), (3, 3)]);
    assert_eq!(line((0, 0), (-3, 3)), vec![(0, 0), (-1, 1), (-2, 2), (-3, 3)]);
}

#[test]
fn shallow_line_rounds_to_the_nearest_row() {
    assert_eq!(line((0, 0), (5, 2)), vec![(0, 0), (1, 0), (2, 1), (3, 1), (4, 2), (5, 2)]);
}

#[test]
fn steep_line_rounds_to_the_nearest_column() {
    assert_eq!(line((0, 0), (2, 5)), vec![(0, 0), (0, 1), (1, 2), (1, 3), (2, 4), (2, 5)]);
}

#[test]
fn a_tie_goes_forward() {
    // Half way between two rows the walk takes the one farther on.
    assert_eq!(line((0, 0), (2, 1)), vec![(0, 0), (1, 1), (2, 1)]);
    assert_eq!(line((0, 0), (2, -1)), vec![(0, 0), (1, -1), (2, -1)]);
    assert_eq!(line((2, 1), (0, 0)), vec![(2, 1), (1, 0), (0, 0)]);
}

#[test]
fn line_agrees_with_the_textbook_walk_in_every_direction() {
    for x1 in -3..=3 {
        for y1 in -3..=3 {
            for x2 in -9..=9 {
                for y2 in -9..=9 {
                    assert_eq!(
                        line((x1, y1), (x2, y2)),
                        textbook((x1, y1), (x2, y2)),
                        "from ({x1}, {y1}) to ({x2}, {y2})"
                    );
                }
            }
        }
    }
}

#[test]
fn long_lines_agree_with_the_textbook_walk() {
    let ends = [(1000, 1), (1000, 999), (-1000, 333), (7, -1000), (-641, -640), (500, 250)];
    for to in ends {
        assert_eq!(line((0, 0), to), textbook((0, 0), to));
        assert_eq!(line(to, (0, 0)), textbook(to, (0, 0)));
    }
}

#[test]
fn line_is_contiguous_and_paints_no_cell_twice() {
    let drawn = line((-4, 9), (13, -2));
    assert_eq!(drawn.len(), 18);
    assert_eq!(drawn[0], (-4, 9));
    assert_eq!(drawn[17], (13, -2));
    for pair in drawn.windows(2) {
        assert!((pair[0].0 - pair[1].0).abs() <= 1);
        assert!((pair[0].1 - pair[1].1).abs() <= 1);
        assert_ne!(pair[0], pair[1]);
    }
    for i in 0..drawn.len() {
        for j in 0..i {
            assert_ne!(drawn[i], drawn[j]);
        }
    }
}

#[test]
fn line_appends_to_the_sink_in_the_given_style() {
    let mut sink = vec![PaintOp { cell: Cell { col: 9, row: 9 }, style: Style::Normal }];
    draw_line(Cell { col: 1, row: 1 }, Cell { col: 2, row: 1 }, Style::Highlighted, &mut sink);
    assert_eq!(
        sink,
        vec![
            PaintOp { cell: Cell { col: 9, row: 9 }, style: Style::Normal },
            PaintOp { cell: Cell { col: 1, row: 1 }, style: Style::Highlighted },
            PaintOp { cell: Cell { col: 2, row: 1 }, style: Style::Highlighted },
        ]
    );
}

#[test]
fn line_at_the_edge_of_the_coordinate_range() {
    assert_eq!(
        line((i32::MAX - 2, i32::MIN), (i32::MAX, i32::MIN + 1)),
        vec![(i32::MAX - 2, i32::MIN), (i32::MAX - 1, i32::MIN + 1), (i32::MAX, i32::MIN + 1)]
    );
}

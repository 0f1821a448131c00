use chain_pendulum::paint::{paint, Cell, PaintOp, Style};

#[test]
fn paint_appends_one_operation() {
    let mut sink = Vec::new();
    paint(&mut sink, Cell { col: 3, row: -4 }, Style::Normal);
    paint(&mut sink, Cell { col: 3, row: -4 }, Style::Highlighted);
    paint(&mut sink, Cell { col: i32::MAX, row: i32::MIN }, Style::Segment);
    assert_eq!(
        sink,
        vec![
            PaintOp { cell: Cell { col: 3, row: -4 }, style: Style::Normal },
            PaintOp { cell: Cell { col: 3, row: -4 }, style: Style::Highlighted },
            PaintOp { cell: Cell { col: i32::MAX, row: i32::MIN }, style: Style::Segment },
        ]
    );
}

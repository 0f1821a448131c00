//! The picture of the chain: for each link its segment, then the marker of
//! the joint that the segment leads to, so that markers lie on top.

use vstd::prelude::*;
use crate::circle::{circle_fits, circle_points, draw_circle};
use crate::line::{draw_line, lemma_line_ends, line_points};
use crate::paint::{
    cell_points, lemma_paints_push, paints, styled, Cell, Paint, PaintOp, Point, Style,
};
use crate::viewport::Viewport;

verus! {

/// The radius of a joint's marker, in cells.
pub const JOINT_RADIUS: u16 = 2;

/// The style of the marker of joint `index`.
pub open spec fn joint_style(index: int, selected: int) -> Style {
    if index == selected {
        Style::Highlighted
    } else {
        Style::Normal
    }
}

/// Where the segment of link `index` starts: at the anchor for the first
/// link, at the previous joint for the others.
pub open spec fn link_base(anchor: Point, joints: Seq<Point>, index: int) -> Point {
    if index == 0 {
        anchor
    } else {
        joints[index - 1]
    }
}

/// The paints of link `index`: its segment, then the marker of its joint.
pub open spec fn link_paints(anchor: Point, joints: Seq<Point>, selected: int, index: int) -> Seq<
    Paint,
> {
    styled(line_points(link_base(anchor, joints, index), joints[index]), Style::Segment) + styled(
        circle_points(joints[index], JOINT_RADIUS as int),
        joint_style(index, selected),
    )
}

/// The paints of the first `count` links, in order.
pub open spec fn chain_paints(anchor: Point, joints: Seq<Point>, selected: int, count: nat) -> Seq<
    Paint,
>
    decreases count,
{
    if count == 0 {
        Seq::empty()
    } else {
        chain_paints(anchor, joints, selected, (count - 1) as nat) + link_paints(
            anchor,
            joints,
            selected,
            count - 1,
        )
    }
}

/// The paints of the whole chain hanging from `anchor`.
pub open spec fn scene_paints(anchor: Point, joints: Seq<Point>, selected: int) -> Seq<Paint> {
    chain_paints(anchor, joints, selected, joints.len())
}

/// The paints of the first links are the paints of the first link, then the
/// rest.
proof fn lemma_chain_starts_with_first_link(
    anchor: Point,
    joints: Seq<Point>,
    selected: int,
    count: nat,
)
    requires
        1 <= count,
    ensures
        link_paints(anchor, joints, selected, 0).is_prefix_of(
            chain_paints(anchor, joints, selected, count),
        ),
    decreases count,
{
    let first = link_paints(anchor, joints, selected, 0);
    if count == 1 {
        assert(chain_paints(anchor, joints, selected, 0) =~= Seq::empty());
        assert(chain_paints(anchor, joints, selected, 1) =~= first);
    } else {
        lemma_chain_starts_with_first_link(anchor, joints, selected, (count - 1) as nat);
    }
}

/// The chain hangs from the anchor: the first paint of a chain with a link is
/// the anchor itself, as the start of the first segment.
pub proof fn lemma_chain_hangs_from_anchor(anchor: Point, joints: Seq<Point>, selected: int)
    requires
        1 <= joints.len(),
    ensures
        scene_paints(anchor, joints, selected).len() > 0,
        scene_paints(anchor, joints, selected)[0] == (Paint { at: anchor, style: Style::Segment }),
{
    lemma_chain_starts_with_first_link(anchor, joints, selected, joints.len());
    lemma_line_ends(anchor, joints[0]);
    let first = link_paints(anchor, joints, selected, 0);
    assert(first[0] == styled(line_points(anchor, joints[0]), Style::Segment)[0]);
}

/// Draws the chain into the sink: link by link from the anchor, each segment
/// followed by the marker of the joint it leads to. The marker of the
/// selected joint is highlighted.
pub fn draw_chain(anchor: Cell, joints: &Vec<Cell>, selected: usize, sink: &mut Vec<PaintOp>)
    requires
        forall|i: int|
            0 <= i < joints@.len() ==> circle_fits(#[trigger] joints@[i]@, JOINT_RADIUS as int),
    ensures
        paints(final(sink)@) == paints(old(sink)@) + scene_paints(
            anchor@,
            cell_points(joints@),
            selected as int,
        ),
{
    let ghost before = paints(sink@);
    let ghost points = cell_points(joints@);
    let mut base = anchor;
    let mut index: usize = 0;
    proof {
        assert(paints(sink@) =~= before + chain_paints(anchor@, points, selected as int, 0));
    }
    while index < joints.len()
        invariant
            0 <= index <= joints@.len(),
            points == cell_points(joints@),
            forall|i: int|
                0 <= i < joints@.len() ==> circle_fits(
                    #[trigger] joints@[i]@,
                    JOINT_RADIUS as int,
                ),
            base@ == link_base(anchor@, points, index as int),
            paints(sink@) == before + chain_paints(anchor@, points, selected as int, index as nat),
        decreases joints@.len() - index,
    {
        let joint = joints[index];
        let style = if index == selected { Style::Highlighted } else { Style::Normal };
        let ghost drawn = chain_paints(anchor@, points, selected as int, index as nat);
        draw_line(base, joint, Style::Segment, sink);
        draw_circle(joint, JOINT_RADIUS, style, sink);
        proof {
            assert(paints(sink@) =~= before + (drawn + link_paints(
                anchor@,
                points,
                selected as int,
                index as int,
            )));
        }
        base = joint;
        index += 1;
    }
}

/// The paints that fall on the terminal, in order.
pub open spec fn on_terminal(viewport: Viewport) -> spec_fn(Paint) -> bool {
    |paint: Paint| viewport.holds(paint.at)
}

/// Drops the operations that do not fall on the terminal and keeps the others
/// in order.
pub fn clip(ops: &Vec<PaintOp>, viewport: &Viewport) -> (kept: Vec<PaintOp>)
    ensures
        paints(kept@) == paints(ops@).filter(on_terminal(*viewport)),
{
    let mut kept: Vec<PaintOp> = Vec::new();
    let mut index: usize = 0;
    proof {
        reveal(Seq::filter);
        assert(paints(ops@.take(0)) =~= Seq::<Paint>::empty());
        assert(paints(kept@) =~= Seq::<Paint>::empty());
    }
    while index < ops.len()
        invariant
            0 <= index <= ops@.len(),
            paints(kept@) == paints(ops@.take(index as int)).filter(on_terminal(*viewport)),
        decreases ops@.len() - index,
    {
        let op = ops[index];
        proof {
            reveal(Seq::filter);
            let seen = paints(ops@.take(index as int));
            let next = paints(ops@.take(index + 1));
            assert(next.drop_last() =~= seen);
            assert(next.last() == op@);
            lemma_paints_push(kept@, op);
        }
        if viewport.contains(op.cell) {
            kept.push(op);
        }
        index += 1;
    }
    proof {
        assert(ops@.take(index as int) =~= ops@);
    }
    kept
}

/// The points at the given offsets from the viewport's centre, in order.
pub open spec fn placed_points(viewport: Viewport, offsets: Seq<(i16, i16)>) -> Seq<Point> {
    Seq::new(offsets.len(), |i: int| viewport.placed((offsets[i].0 as int, offsets[i].1 as int)))
}

/// The paints of one frame: the chain hangs from the centre of the viewport,
/// its joints at the given offsets from the centre, and only what falls on
/// the terminal is kept.
pub open spec fn frame_paints(viewport: Viewport, offsets: Seq<(i16, i16)>, selected: int) -> Seq<
    Paint,
> {
    scene_paints(viewport.center_point(), placed_points(viewport, offsets), selected).filter(
        on_terminal(viewport),
    )
}

/// Every paint of a frame falls on the terminal: what lies outside has been
/// dropped.
pub proof fn lemma_frame_on_terminal(
    viewport: Viewport,
    offsets: Seq<(i16, i16)>,
    selected: int,
    i: int,
)
    requires
        0 <= i < frame_paints(viewport, offsets, selected).len(),
    ensures
        viewport.holds(frame_paints(viewport, offsets, selected)[i].at),
{
    let all = scene_paints(viewport.center_point(), placed_points(viewport, offsets), selected);
    all.lemma_filter_pred(on_terminal(viewport), i);
}

/// A frame keeps every paint of the chain that falls on the terminal.
pub proof fn lemma_frame_keeps_visible(
    viewport: Viewport,
    offsets: Seq<(i16, i16)>,
    selected: int,
    i: int,
)
    requires
        ({
            let all = scene_paints(
                viewport.center_point(),
                placed_points(viewport, offsets),
                selected,
            );
            0 <= i < all.len() && viewport.holds(all[i].at)
        }),
    ensures
        frame_paints(viewport, offsets, selected).contains(
            scene_paints(viewport.center_point(), placed_points(viewport, offsets), selected)[i],
        ),
{
    let all = scene_paints(viewport.center_point(), placed_points(viewport, offsets), selected);
    all.lemma_filter_contains(on_terminal(viewport), i);
}

/// Composes one frame from the joints' offsets from the centre, given in
/// cells and in the order of the links.
pub fn render(viewport: &Viewport, offsets: &Vec<(i16, i16)>, selected: usize) -> (frame: Vec<
    PaintOp,
>)
    ensures
        paints(frame@) == frame_paints(*viewport, offsets@, selected as int),
{
    let mut joints: Vec<Cell> = Vec::new();
    let mut index: usize = 0;
    while index < offsets.len()
        invariant
            0 <= index <= offsets@.len(),
            joints@.len() == index,
            forall|i: int|
                0 <= i < index ==> (#[trigger] joints@[i])@ == viewport.placed(
                    (offsets@[i].0 as int, offsets@[i].1 as int),
                ),
        decreases offsets@.len() - index,
    {
        let offset = offsets[index];
        joints.push(viewport.cell_at(offset.0, offset.1));
        index += 1;
    }
    proof {
        assert(cell_points(joints@) =~= placed_points(*viewport, offsets@));
    }
    let mut ops: Vec<PaintOp> = Vec::new();
    draw_chain(viewport.center(), &joints, selected, &mut ops);
    proof {
        assert(paints(ops@) =~= scene_paints(
            viewport.center_point(),
            placed_points(*viewport, offsets@),
            selected as int,
        ));
    }
    clip(&ops, viewport)
}

} // verus!

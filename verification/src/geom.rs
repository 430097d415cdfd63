//! Exact integer rectangle geometry: overlap and containment predicates,
//! kerf expansion, and the well-formedness of a panel layout.
//!
//! A rectangle is the half-open box `[x, x + w) x [y, y + h)`; two
//! rectangles overlap when the boxes share a point, which the predicates
//! below express with strict inequalities on the coordinates.

use vstd::prelude::*;

use crate::types::{PanelLayout, Placement, UnusedArea, MAX_DIM};

verus! {

/// A mathematical rectangle, used only in specifications.
pub ghost struct GRect {
    pub x: int,
    pub y: int,
    pub w: int,
    pub h: int,
}

pub open spec fn area_rect(a: UnusedArea) -> GRect {
    GRect { x: a.x as int, y: a.y as int, w: a.width as int, h: a.height as int }
}

pub open spec fn placement_rect(p: Placement) -> GRect {
    GRect { x: p.x as int, y: p.y as int, w: p.width as int, h: p.height as int }
}

/// The rectangle a placement reserves: the placed piece plus the saw kerf
/// on its right and top side.
pub open spec fn expanded_rect(r: GRect, kerf: int) -> GRect {
    GRect { x: r.x, y: r.y, w: r.w + kerf, h: r.h + kerf }
}

/// The part of a panel that placements may use: the panel minus its
/// trimming border.
pub open spec fn usable_rect(l: PanelLayout) -> GRect {
    GRect {
        x: l.trimming as int,
        y: l.trimming as int,
        w: l.width - 2 * l.trimming,
        h: l.height - 2 * l.trimming,
    }
}

/// The two half-open boxes share at least one point.
pub open spec fn rects_overlap(a: GRect, b: GRect) -> bool {
    &&& a.x < b.x + b.w
    &&& b.x < a.x + a.w
    &&& a.y < b.y + b.h
    &&& b.y < a.y + a.h
}

/// `inner` lies entirely within `outer`.
pub open spec fn rect_inside(inner: GRect, outer: GRect) -> bool {
    &&& outer.x <= inner.x
    &&& outer.y <= inner.y
    &&& inner.x + inner.w <= outer.x + outer.w
    &&& inner.y + inner.h <= outer.y + outer.h
}

/// Anything inside a rectangle that avoids an obstacle avoids it too.
pub proof fn lemma_inside_avoids(inner: GRect, outer: GRect, obstacle: GRect)
    requires
        rect_inside(inner, outer),
        !rects_overlap(outer, obstacle),
    ensures
        !rects_overlap(inner, obstacle),
{
}

/// Some rectangle of the list contains `q` entirely.
pub open spec fn rect_covered(q: GRect, rects: Seq<UnusedArea>) -> bool {
    exists|k: int| 0 <= k < rects.len() && rect_inside(q, area_rect(#[trigger] rects[k]))
}

/// Coverage survives appending more rectangles.
pub proof fn lemma_covered_extend(q: GRect, rects: Seq<UnusedArea>, more: Seq<UnusedArea>)
    requires
        rect_covered(q, rects),
        rects.len() <= more.len(),
        forall|k: int| 0 <= k < rects.len() ==> #[trigger] more[k] == rects[k],
    ensures
        rect_covered(q, more),
{
    let k = choose|k: int| 0 <= k < rects.len() && rect_inside(q, area_rect(#[trigger] rects[k]));
    assert(rect_inside(q, area_rect(more[k])));
}

/// Coordinate bounds that keep rectangle arithmetic inside `i64`. Bounding
/// the far edges keeps the predicate stable under taking sub-rectangles.
pub open spec fn area_bounded(a: UnusedArea) -> bool {
    &&& 0 <= a.x
    &&& 0 <= a.y
    &&& 0 <= a.width
    &&& 0 <= a.height
    &&& a.x + a.width <= 4 * MAX_DIM
    &&& a.y + a.height <= 4 * MAX_DIM
}

pub open spec fn placement_bounded(p: Placement) -> bool {
    &&& 0 <= p.x <= MAX_DIM
    &&& 0 <= p.y <= MAX_DIM
    &&& 0 <= p.width <= MAX_DIM
    &&& 0 <= p.height <= MAX_DIM
}

/// Dimension bounds of a layout and everything on it, with no demand yet
/// that the placements sit inside the usable area or apart of each other.
pub open spec fn layout_bounded(l: PanelLayout) -> bool {
    &&& 1 <= l.width <= MAX_DIM
    &&& 1 <= l.height <= MAX_DIM
    &&& 0 <= l.trimming <= MAX_DIM
    &&& forall|i: int|
        0 <= i < l.placements@.len() ==> placement_bounded(#[trigger] l.placements@[i])
}

/// The placement has positive dimensions and lies inside the usable area.
pub open spec fn placement_ok(p: Placement, l: PanelLayout) -> bool {
    &&& 1 <= p.width
    &&& 1 <= p.height
    &&& rect_inside(placement_rect(p), usable_rect(l))
}

/// No placement intrudes into the space an earlier one reserved: for every
/// pair, the earlier placement's kerf-expanded rectangle is disjoint from
/// the later placement. As the expansion covers the piece itself, the
/// pieces themselves are pairwise disjoint as well.
///
/// This ordered form is the deliberate reading of the kerf-separation
/// invariant. The symmetric form, with every placement's expansion clear
/// of every other piece, is unattainable under maxrects tracking: a split
/// keeps strips that abut a placement's left and bottom edges with no kerf
/// between them, so a later piece may legitimately sit flush against an
/// earlier one; only the space to the right of and above each piece is
/// reserved for its cut.
pub open spec fn placements_separated(l: PanelLayout, kerf: int) -> bool {
    forall|i: int, j: int|
        0 <= i < j < l.placements@.len() ==> !rects_overlap(
            expanded_rect(placement_rect(#[trigger] l.placements@[i]), kerf),
            placement_rect(#[trigger] l.placements@[j]),
        )
}

/// A well-formed layout: positive usable area, every placement inside it,
/// and no placement overlapping the reserved space of an earlier one.
pub open spec fn layout_wf(l: PanelLayout, kerf: int) -> bool {
    &&& layout_bounded(l)
    &&& l.width - 2 * l.trimming >= 1
    &&& l.height - 2 * l.trimming >= 1
    &&& forall|i: int| 0 <= i < l.placements@.len() ==> placement_ok(#[trigger] l.placements@[i], l)
    &&& placements_separated(l, kerf)
}

/// The pieces of two separated placements never overlap each other.
pub proof fn lemma_separated_pieces_disjoint(l: PanelLayout, kerf: int, i: int, j: int)
    requires
        0 <= kerf,
        placements_separated(l, kerf),
        0 <= i < l.placements@.len(),
        0 <= j < l.placements@.len(),
        i != j,
    ensures
        !rects_overlap(placement_rect(l.placements@[i]), placement_rect(l.placements@[j])),
{
}

} // verus!

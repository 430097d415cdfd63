//! Deep copies of the plan data, with the copy proved equal to the
//! original. The panel-reduction pass works on such copies so that a failed
//! attempt leaves the accepted plan untouched.

use vstd::prelude::*;

use crate::types::{Item, OptionalItem, PanelLayout, Placement, UnusedArea};

verus! {

pub(crate) fn clone_placement(p: &Placement) -> (r: Placement)
    ensures
        r == *p,
{
    Placement {
        item_id: p.item_id.clone(),
        x: p.x,
        y: p.y,
        width: p.width,
        height: p.height,
        rotated: p.rotated,
    }
}

pub(crate) fn clone_item(it: &Item) -> (r: Item)
    ensures
        r == *it,
{
    Item {
        id: it.id.clone(),
        width: it.width,
        height: it.height,
        quantity: it.quantity,
        can_rotate: it.can_rotate,
    }
}

pub(crate) fn clone_optional_item(it: &OptionalItem) -> (r: OptionalItem)
    ensures
        r == *it,
{
    OptionalItem {
        id: it.id.clone(),
        width: it.width,
        height: it.height,
        quantity: it.quantity,
        can_rotate: it.can_rotate,
        priority: it.priority,
    }
}

pub(crate) fn clone_layout(l: &PanelLayout) -> (r: PanelLayout)
    ensures
        crate::model::layout_equiv(r, *l),
{
    let mut placements: Vec<Placement> = Vec::new();
    let n = l.placements.len();
    let mut i: usize = 0;
    while i < n
        invariant
            n == l.placements@.len(),
            0 <= i <= n,
            placements@ =~= l.placements@.take(i as int),
        decreases n - i,
    {
        placements.push(clone_placement(&l.placements[i]));
        proof {
            assert(placements@ =~= l.placements@.take(i + 1));
        }
        i += 1;
    }
    let mut unused_areas: Vec<UnusedArea> = Vec::new();
    let m = l.unused_areas.len();
    let mut i: usize = 0;
    while i < m
        invariant
            m == l.unused_areas@.len(),
            0 <= i <= m,
            unused_areas@ =~= l.unused_areas@.take(i as int),
        decreases m - i,
    {
        unused_areas.push(l.unused_areas[i]);
        proof {
            assert(unused_areas@ =~= l.unused_areas@.take(i + 1));
        }
        i += 1;
    }
    let r = PanelLayout {
        panel_type_id: l.panel_type_id.clone(),
        panel_number: l.panel_number,
        width: l.width,
        height: l.height,
        trimming: l.trimming,
        placements,
        unused_areas,
    };
    proof {
        assert(l.placements@.take(l.placements@.len() as int) =~= l.placements@);
        assert(l.unused_areas@.take(l.unused_areas@.len() as int) =~= l.unused_areas@);
        assert(r.placements@ == l.placements@);
        assert(r.unused_areas@ == l.unused_areas@);
    }
    r
}

pub(crate) fn clone_items(v: &Vec<Item>) -> (r: Vec<Item>)
    ensures
        r@ == v@,
{
    let mut out: Vec<Item> = Vec::new();
    let n = v.len();
    let mut i: usize = 0;
    while i < n
        invariant
            n == v@.len(),
            0 <= i <= n,
            out@ =~= v@.take(i as int),
        decreases n - i,
    {
        out.push(clone_item(&v[i]));
        proof {
            assert(out@ =~= v@.take(i + 1));
        }
        i += 1;
    }
    proof {
        assert(v@.take(n as int) =~= v@);
    }
    out
}

} // verus!

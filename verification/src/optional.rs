//! Optional-item backfill: when effective waste exceeds a threshold, try to
//! place the panel types' optional bonus items, keeping only insertions
//! that strictly reduce the effective waste. Backfill never adds a panel.

use vstd::prelude::*;

use crate::geom::{
    expanded_rect, layout_bounded, layout_wf, placement_ok, placement_rect, rects_overlap,
    usable_rect,
};
use crate::model::{
    layouts_placed_ids, lemma_layout_ids_push, lemma_layouts_ids_update, lemma_push_placement_wf,
    no_declared_optionals, placement_fits_layout, placement_from_declared_optional,
    placement_matches_item, string_views,
};
use crate::summary::{
    lemma_sum_panel_pointwise, lemma_sum_placement_push, lemma_sum_used_pointwise,
    lemma_sum_used_update, spec_percentage, sum_panel_area, sum_used_area,
};
use crate::types::PanelType;
use crate::optimizer::Optimizer;
use crate::summary::{lemma_total_placements_update, total_placements};
use crate::types::{
    item_ok, optional_item_ok, Item, OptionalItem, PanelLayout, Placement, MAX_TOTAL_ITEMS,
};

verus! {

/// An optional item together with the panel type it may be placed on.
pub struct PoolEntry {
    pub panel_type_id: String,
    pub item: OptionalItem,
}

/// A placement cut from this optional item: same identifier, and the
/// item's dimensions, swapped exactly when rotated and permitted.
pub open spec fn placement_matches_optional(p: Placement, o: OptionalItem) -> bool {
    &&& p.item_id@ == o.id@
    &&& if p.rotated {
        p.width == o.height && p.height == o.width && o.can_rotate
    } else {
        p.width == o.width && p.height == o.height
    }
}

/// No placement of this optional item fits the layout anywhere.
pub open spec fn optional_no_fit(o: OptionalItem, l: PanelLayout, kerf: int) -> bool {
    forall|p: Placement|
        placement_matches_optional(p, o) ==> !placement_fits_layout(p, l, kerf)
}

/// Some declared optional item has a feasible placement on some layout of
/// its declaring panel type.
pub open spec fn some_optional_insertable(
    types: Seq<PanelType>,
    ls: Seq<PanelLayout>,
    kerf: int,
) -> bool {
    exists|t: int, o: int, i: int|
        #![trigger types[t].optional_items@[o], ls[i]]
        0 <= t < types.len() && 0 <= o < types[t].optional_items@.len() && 0 <= i < ls.len()
            && ls[i].panel_type_id@ == types[t].id@ && !optional_no_fit(
            types[t].optional_items@[o],
            ls[i],
            kerf,
        )
}

/// The pool holds an entry pairing this panel type identifier with this
/// optional item.
pub open spec fn pool_has_entry(pool: Seq<PoolEntry>, id: Seq<char>, item: OptionalItem) -> bool {
    exists|k: int|
        0 <= k < pool.len() && (#[trigger] pool[k]).panel_type_id@ == id && pool[k].item == item
}

/// Every declared optional item of every panel type has a pool entry.
pub open spec fn pool_covers(pool: Seq<PoolEntry>, types: Seq<PanelType>) -> bool {
    forall|t0: int, o0: int|
        #![trigger types[t0].optional_items@[o0]]
        0 <= t0 < types.len() && 0 <= o0 < types[t0].optional_items@.len() ==> pool_has_entry(
            pool,
            types[t0].id@,
            types[t0].optional_items@[o0],
        )
}

/// An entry stays found when the pool is extended at the end.
proof fn lemma_pool_entry_extend(
    pool: Seq<PoolEntry>,
    more: Seq<PoolEntry>,
    id: Seq<char>,
    item: OptionalItem,
)
    requires
        pool_has_entry(pool, id, item),
        pool.len() <= more.len(),
        forall|k: int| 0 <= k < pool.len() ==> #[trigger] more[k] == pool[k],
    ensures
        pool_has_entry(more, id, item),
{
    let k = choose|k: int|
        0 <= k < pool.len() && (#[trigger] pool[k]).panel_type_id@ == id && pool[k].item == item;
    assert(more[k].panel_type_id@ == id && more[k].item == item);
}

/// The entry names a panel type of the request and holds one of the
/// optional items that type declares.
pub open spec fn pool_entry_declared(e: PoolEntry, types: Seq<PanelType>) -> bool {
    exists|t: int, o: int|
        0 <= t < types.len() && 0 <= o < (#[trigger] types[t]).optional_items@.len()
            && e.panel_type_id@ == types[t].id@ && e.item == (
        #[trigger] types[t].optional_items@[o])
}

/// Pool order: priority first, larger area breaking ties.
pub open spec fn pool_key_ge(a: PoolEntry, b: PoolEntry) -> bool {
    a.item.priority > b.item.priority || (a.item.priority == b.item.priority && a.item.width
        * a.item.height >= b.item.width * b.item.height)
}

/// Does `a` come strictly after `b` in the pool order?
fn pool_key_less(a: &PoolEntry, b: &PoolEntry) -> (r: bool)
    requires
        optional_item_ok(a.item),
        optional_item_ok(b.item),
    ensures
        r == !pool_key_ge(*a, *b),
{
    proof {
        assert(1 <= a.item.width * a.item.height <= 1_000_000_000_000) by (nonlinear_arith)
            requires
                1 <= a.item.width <= crate::types::MAX_DIM,
                1 <= a.item.height <= crate::types::MAX_DIM,
        ;
        assert(1 <= b.item.width * b.item.height <= 1_000_000_000_000) by (nonlinear_arith)
            requires
                1 <= b.item.width <= crate::types::MAX_DIM,
                1 <= b.item.height <= crate::types::MAX_DIM,
        ;
    }
    a.item.priority < b.item.priority || (a.item.priority == b.item.priority && a.item.width
        * a.item.height < b.item.width * b.item.height)
}

/// Sorts the pool by priority descending, ties broken by area descending.
fn sort_pool(v: &mut Vec<PoolEntry>, Ghost(types): Ghost<Seq<PanelType>>)
    requires
        forall|k: int| 0 <= k < old(v)@.len() ==> optional_item_ok((#[trigger] old(v)@[k]).item),
        forall|k: int| 0 <= k < old(v)@.len() ==> pool_entry_declared(#[trigger] old(v)@[k], types),
    ensures
        final(v)@.len() == old(v)@.len(),
        forall|k: int| 0 <= k < final(v)@.len() ==> optional_item_ok((#[trigger] final(v)@[k]).item),
        forall|k: int|
            0 <= k < final(v)@.len() ==> pool_entry_declared(#[trigger] final(v)@[k], types),
        forall|i: int, j: int|
            0 <= i < j < final(v)@.len() ==> pool_key_ge(
                #[trigger] final(v)@[i],
                #[trigger] final(v)@[j],
            ),
        forall|k: int| 0 <= k < old(v)@.len() ==> final(v)@.contains(#[trigger] old(v)@[k]),
{
    broadcast use vstd::seq_lib::group_to_multiset_ensures;

    let n = v.len();
    let mut i: usize = 1;
    while i < n && n > 0
        invariant
            n == v@.len(),
            1 <= i <= n || (n == 0 && i == 1),
            v@.to_multiset() == old(v)@.to_multiset(),
            forall|k: int| 0 <= k < v@.len() ==> optional_item_ok((#[trigger] v@[k]).item),
            forall|k: int| 0 <= k < v@.len() ==> pool_entry_declared(#[trigger] v@[k], types),
            i <= n ==> forall|p: int, q: int|
                0 <= p < q < i ==> pool_key_ge(#[trigger] v@[p], #[trigger] v@[q]),
        decreases n - i,
    {
        let ghost pre = v@;
        let x = v.remove(i);
        let mut j: usize = i;
        while j > 0 && pool_key_less(&v[j - 1], &x)
            invariant
                0 <= j <= i < n,
                v@.len() == n - 1,
                v@ == pre.remove(i as int),
                optional_item_ok(x.item),
                pool_entry_declared(x, types),
                forall|k: int| 0 <= k < v@.len() ==> optional_item_ok((#[trigger] v@[k]).item),
                forall|k: int| 0 <= k < v@.len() ==> pool_entry_declared(#[trigger] v@[k], types),
                forall|k: int| j <= k < i ==> !pool_key_ge(#[trigger] v@[k], x),
            decreases j,
        {
            j -= 1;
        }
        v.insert(j, x);
        proof {
            broadcast use vstd::multiset::group_multiset_axioms;

            vstd::seq_lib::to_multiset_insert(pre.remove(i as int), j as int, x);
            vstd::seq_lib::to_multiset_remove(pre, i as int);
            assert(pre.contains(pre[i as int]));
            vstd::seq_lib::to_multiset_contains(pre, pre[i as int]);
            assert(pre.to_multiset().count(pre[i as int]) > 0);
            assert(v@.to_multiset() =~= pre.to_multiset().remove(pre[i as int]).insert(
                pre[i as int],
            ));
            assert(pre.to_multiset().remove(pre[i as int]).insert(pre[i as int])
                =~= pre.to_multiset());
            assert(v@.to_multiset() == old(v)@.to_multiset());
            assert forall|p: int, q: int| 0 <= p < q < (i + 1) implies pool_key_ge(
                #[trigger] v@[p],
                #[trigger] v@[q],
            ) by {}
        }
        i += 1;
    }
    proof {
        assert forall|k: int| 0 <= k < old(v)@.len() implies v@.contains(
            #[trigger] old(v)@[k],
        ) by {
            assert(old(v)@.contains(old(v)@[k]));
            vstd::seq_lib::to_multiset_contains(old(v)@, old(v)@[k]);
            vstd::seq_lib::to_multiset_contains(v@, old(v)@[k]);
        }
    }
}

impl Optimizer {
    /// Converts an optional item to an item for the placement logic.
    pub(crate) fn optional_to_item(&self, opt: &OptionalItem) -> (r: Item)
        ensures
            r.id@ == opt.id@,
            r.width == opt.width,
            r.height == opt.height,
            r.quantity == 1,
            r.can_rotate == opt.can_rotate,
    {
        Item {
            id: opt.id.clone(),
            width: opt.width,
            height: opt.height,
            quantity: 1,
            can_rotate: opt.can_rotate,
        }
    }

    /// Returns the best-scoring feasible placement for an item on a layout,
    /// if any position admits it.
    pub fn try_place_item(&self, item: &Item, layout: &PanelLayout) -> (r: Option<Placement>)
        requires
            self.wf(),
            layout_bounded(*layout),
            item_ok(*item),
        ensures
            r matches Some(p) ==> {
                &&& placement_matches_item(p, *item)
                &&& placement_fits_layout(p, *layout, self.kerf())
                &&& exists|a: crate::types::UnusedArea|
                    {
                        &&& #[trigger] crate::packer::area_admits(a, *item)
                        &&& p.x == a.x
                        &&& p.y == a.y
                        &&& p.width <= a.width
                        &&& p.height <= a.height
                        &&& crate::geom::rect_inside(
                            crate::geom::area_rect(a),
                            crate::geom::usable_rect(*layout),
                        )
                    }
            },
            r is None ==> forall|p: Placement|
                placement_matches_item(p, *item) ==> !placement_fits_layout(
                    p,
                    *layout,
                    self.kerf(),
                ),
    {
        let candidates = self.generate_candidate_placements(item, layout);
        let n = candidates.len();
        if n == 0 {
            return None;
        }
        let mut best_idx: usize = 0;
        let mut k: usize = 1;
        while k < n
            invariant
                n == candidates@.len(),
                0 <= best_idx < n,
                1 <= k <= n,
            decreases n - k,
        {
            if candidates[k].score < candidates[best_idx].score {
                best_idx = k;
            }
            k += 1;
        }
        let c = &candidates[best_idx];
        let chosen = crate::cloning::clone_placement(&c.placement);
        proof {
            let a = crate::types::UnusedArea {
                x: c.placement.x,
                y: c.placement.y,
                width: c.area_width,
                height: c.area_height,
            };
            assert(crate::packer::area_admits(a, *item));
        }
        Some(chosen)
    }

    /// Attempts to insert optional items to reduce waste on the packed
    /// panels. Optional items are only considered when the effective waste
    /// exceeds 8%; they are tried in priority order, several copies of one
    /// item may be placed, and a copy is kept only when it strictly reduces
    /// the effective waste. The number of panels never changes, and every
    /// placed copy's identifier is reported.
    pub fn try_add_optional_items(&self, layouts: Vec<PanelLayout>) -> (r: (
        Vec<PanelLayout>,
        Vec<String>,
    ))
        requires
            self.wf(),
            layouts@.len() <= MAX_TOTAL_ITEMS,
            total_placements(layouts@) <= MAX_TOTAL_ITEMS,
            forall|i: int| 0 <= i < layouts@.len() ==> layout_wf(#[trigger] layouts@[i], self.kerf()),
        ensures
            r.0@.len() == layouts@.len(),
            forall|i: int|
                0 <= i < r.0@.len() ==> {
                    &&& (#[trigger] r.0@[i]).panel_type_id == layouts@[i].panel_type_id
                    &&& r.0@[i].panel_number == layouts@[i].panel_number
                    &&& r.0@[i].width == layouts@[i].width
                    &&& r.0@[i].height == layouts@[i].height
                    &&& r.0@[i].trimming == layouts@[i].trimming
                    &&& layout_wf(r.0@[i], self.kerf())
                },
            layouts_placed_ids(r.0@) == layouts_placed_ids(layouts@).add(
                string_views(r.1@).to_multiset(),
            ),
            total_placements(r.0@) == total_placements(layouts@) + r.1@.len(),
            r.1@.len() <= MAX_TOTAL_ITEMS,
            r.1@.len() == 0 ==> forall|i: int|
                0 <= i < r.0@.len() ==> (#[trigger] r.0@[i]).placements@
                    == layouts@[i].placements@,
            forall|i: int|
                0 <= i < r.0@.len() ==> (#[trigger] r.0@[i]).placements@.len()
                    >= layouts@[i].placements@.len(),
            forall|i: int, pi: int|
                0 <= i < r.0@.len() && 0 <= pi < layouts@[i].placements@.len()
                    ==> #[trigger] r.0@[i].placements@[pi] == layouts@[i].placements@[pi],
            forall|i: int, pi: int|
                0 <= i < r.0@.len() && layouts@[i].placements@.len() <= pi
                    < r.0@[i].placements@.len() ==> placement_from_declared_optional(
                    #[trigger] r.0@[i].placements@[pi],
                    self.request.panel_types@,
                ),
            no_declared_optionals(self.request.panel_types@) ==> r.1@.len() == 0,
            (self.request.min_reusable_remnant_size is None && spec_percentage(
                sum_panel_area(layouts@) - sum_used_area(layouts@),
                sum_panel_area(layouts@),
            ) <= 800) ==> r.1@.len() == 0,
            (self.request.min_reusable_remnant_size is None && spec_percentage(
                sum_panel_area(layouts@) - sum_used_area(layouts@),
                sum_panel_area(layouts@),
            ) > 800 && some_optional_insertable(
                self.request.panel_types@,
                layouts@,
                self.kerf(),
            )) ==> r.1@.len() >= 1,
            sum_used_area(r.0@) >= sum_used_area(layouts@) + r.1@.len(),
    {
        broadcast use vstd::seq_lib::group_to_multiset_ensures;

        let ghost orig = layouts@;
        let initial_summary = self.calculate_summary(&layouts);
        let effective_waste_pct = match initial_summary.actual_waste_percentage {
            Some(p) => p,
            None => initial_summary.waste_percentage,
        };

        // Only consider optional items when the effective waste exceeds 8%.
        if effective_waste_pct <= 800 {
            proof {
                lemma_no_optionals(orig);
                if self.request.min_reusable_remnant_size is None {
                    assert(effective_waste_pct == spec_percentage(
                        sum_panel_area(orig) - sum_used_area(orig),
                        sum_panel_area(orig),
                    ));
                }
            }
            return (layouts, Vec::new());
        }

        // Gather the optional items of every panel type.
        let mut pool: Vec<PoolEntry> = Vec::new();
        let n_types = self.request.panel_types.len();
        let mut t: usize = 0;
        while t < n_types
            invariant
                self.wf(),
                n_types == self.request.panel_types@.len(),
                0 <= t <= n_types,
                forall|k: int| 0 <= k < pool@.len() ==> optional_item_ok((#[trigger] pool@[k]).item),
                forall|k: int|
                    0 <= k < pool@.len() ==> pool_entry_declared(
                        #[trigger] pool@[k],
                        self.request.panel_types@,
                    ),
                forall|t0: int, o0: int|
                    #![trigger self.request.panel_types@[t0].optional_items@[o0]]
                    0 <= t0 < t && 0 <= o0 < self.request.panel_types@[t0].optional_items@.len()
                        ==> pool_has_entry(
                        pool@,
                        self.request.panel_types@[t0].id@,
                        self.request.panel_types@[t0].optional_items@[o0],
                    ),
            decreases n_types - t,
        {
            let panel_type = &self.request.panel_types[t];
            let n_opts = panel_type.optional_items.len();
            let mut o: usize = 0;
            while o < n_opts
                invariant
                    self.wf(),
                    0 <= t < self.request.panel_types@.len(),
                    panel_type == &self.request.panel_types[t as int],
                    n_opts == panel_type.optional_items@.len(),
                    0 <= o <= n_opts,
                    forall|k: int|
                        0 <= k < pool@.len() ==> optional_item_ok((#[trigger] pool@[k]).item),
                    forall|k: int|
                        0 <= k < pool@.len() ==> pool_entry_declared(
                            #[trigger] pool@[k],
                            self.request.panel_types@,
                        ),
                    forall|t0: int, o0: int|
                        #![trigger self.request.panel_types@[t0].optional_items@[o0]]
                        0 <= t0 < self.request.panel_types@.len() && 0 <= o0
                            < self.request.panel_types@[t0].optional_items@.len() && (t0 < t || (
                        t0 == t && o0 < o)) ==> pool_has_entry(
                            pool@,
                            self.request.panel_types@[t0].id@,
                            self.request.panel_types@[t0].optional_items@[o0],
                        ),
                decreases n_opts - o,
            {
                let ghost pool_before = pool@;
                pool.push(
                    PoolEntry {
                        panel_type_id: panel_type.id.clone(),
                        item: crate::cloning::clone_optional_item(&panel_type.optional_items[o]),
                    },
                );
                proof {
                    assert(pool@[pool@.len() - 1].item == self.request.panel_types@[t as int]
                        .optional_items@[o as int]);
                    assert(pool_entry_declared(
                        pool@[pool@.len() - 1],
                        self.request.panel_types@,
                    ));
                    assert forall|t0: int, o0: int|
                        #![trigger self.request.panel_types@[t0].optional_items@[o0]]
                        0 <= t0 < self.request.panel_types@.len() && 0 <= o0
                            < self.request.panel_types@[t0].optional_items@.len() && (t0 < t || (
                        t0 == t && o0 < o + 1)) implies pool_has_entry(
                        pool@,
                        self.request.panel_types@[t0].id@,
                        self.request.panel_types@[t0].optional_items@[o0],
                    ) by {
                        if t0 == t && o0 == o {
                            assert(pool@[pool@.len() - 1].panel_type_id@
                                == self.request.panel_types@[t0].id@);
                            assert(pool_has_entry(
                                pool@,
                                self.request.panel_types@[t0].id@,
                                self.request.panel_types@[t0].optional_items@[o0],
                            ));
                        } else {
                            lemma_pool_entry_extend(
                                pool_before,
                                pool@,
                                self.request.panel_types@[t0].id@,
                                self.request.panel_types@[t0].optional_items@[o0],
                            );
                        }
                    }
                }
                o += 1;
            }
            t += 1;
        }

        if pool.len() == 0 {
            proof {
                lemma_no_optionals(orig);
                if some_optional_insertable(self.request.panel_types@, orig, self.kerf()) {
                    let (t, o, i) = choose|t: int, o: int, i: int|
                        #![trigger self.request.panel_types@[t].optional_items@[o], orig[i]]
                        0 <= t < self.request.panel_types@.len() && 0 <= o
                            < self.request.panel_types@[t].optional_items@.len() && 0 <= i
                            < orig.len() && orig[i].panel_type_id@
                            == self.request.panel_types@[t].id@ && !optional_no_fit(
                            self.request.panel_types@[t].optional_items@[o],
                            orig[i],
                            self.kerf(),
                        );
                    assert(pool_has_entry(
                        pool@,
                        self.request.panel_types@[t].id@,
                        self.request.panel_types@[t].optional_items@[o],
                    ));
                    let k = choose|k: int|
                        0 <= k < pool@.len() && (#[trigger] pool@[k]).panel_type_id@
                            == self.request.panel_types@[t].id@ && pool@[k].item
                            == self.request.panel_types@[t].optional_items@[o];
                    assert(false);
                }
            }
            return (layouts, Vec::new());
        }

        // Priority first, larger pieces before smaller ones.
        let ghost pre_pool = pool@;
        sort_pool(&mut pool, Ghost(self.request.panel_types@));
        proof {
            assert forall|t0: int, o0: int|
                #![trigger self.request.panel_types@[t0].optional_items@[o0]]
                0 <= t0 < self.request.panel_types@.len() && 0 <= o0
                    < self.request.panel_types@[t0].optional_items@.len() implies pool_has_entry(
                pool@,
                self.request.panel_types@[t0].id@,
                self.request.panel_types@[t0].optional_items@[o0],
            ) by {
                let k = choose|k: int|
                    0 <= k < pre_pool.len() && (#[trigger] pre_pool[k]).panel_type_id@
                        == self.request.panel_types@[t0].id@ && pre_pool[k].item
                        == self.request.panel_types@[t0].optional_items@[o0];
                assert(pool@.contains(pre_pool[k]));
                let k2 = choose|k2: int| 0 <= k2 < pool@.len() && pool@[k2] == pre_pool[k];
                assert(pool@[k2].panel_type_id@ == self.request.panel_types@[t0].id@);
            }
        }

        let mut best_layouts = layouts;
        let mut items_used: Vec<String> = Vec::new();
        let mut best_waste: i64 = match initial_summary.actual_waste_area {
            Some(a) => a,
            None => initial_summary.waste_area,
        };

        proof {
            lemma_no_optionals(orig);
            if self.request.min_reusable_remnant_size is None {
                assert(best_waste == sum_panel_area(orig) - sum_used_area(orig));
            }
        }

        loop
            invariant
                self.wf(),
                orig.len() <= MAX_TOTAL_ITEMS,
                total_placements(orig) <= MAX_TOTAL_ITEMS,
                forall|k: int| 0 <= k < pool@.len() ==> optional_item_ok((#[trigger] pool@[k]).item),
                forall|k: int|
                    0 <= k < pool@.len() ==> pool_entry_declared(
                        #[trigger] pool@[k],
                        self.request.panel_types@,
                    ),
                pool@.len() > 0,
                pool_covers(pool@, self.request.panel_types@),
                (self.request.min_reusable_remnant_size is None && items_used@.len() == 0)
                    ==> best_waste == sum_panel_area(orig) - sum_used_area(orig),
                best_layouts@.len() == orig.len(),
                forall|i: int|
                    0 <= i < best_layouts@.len() ==> {
                        &&& (#[trigger] best_layouts@[i]).panel_type_id == orig[i].panel_type_id
                        &&& best_layouts@[i].panel_number == orig[i].panel_number
                        &&& best_layouts@[i].width == orig[i].width
                        &&& best_layouts@[i].height == orig[i].height
                        &&& best_layouts@[i].trimming == orig[i].trimming
                        &&& layout_wf(best_layouts@[i], self.kerf())
                    },
                layouts_placed_ids(best_layouts@) == layouts_placed_ids(orig).add(
                    string_views(items_used@).to_multiset(),
                ),
                total_placements(best_layouts@) == total_placements(orig) + items_used@.len(),
                items_used@.len() <= MAX_TOTAL_ITEMS,
                forall|i: int|
                    0 <= i < best_layouts@.len() ==> (#[trigger] best_layouts@[i]).placements@.len()
                        >= orig[i].placements@.len(),
                forall|i: int, pi: int|
                    0 <= i < best_layouts@.len() && 0 <= pi < orig[i].placements@.len()
                        ==> #[trigger] best_layouts@[i].placements@[pi]
                        == orig[i].placements@[pi],
                forall|i: int, pi: int|
                    0 <= i < best_layouts@.len() && orig[i].placements@.len() <= pi
                        < best_layouts@[i].placements@.len() ==> placement_from_declared_optional(
                        #[trigger] best_layouts@[i].placements@[pi],
                        self.request.panel_types@,
                    ),
                sum_used_area(best_layouts@) >= sum_used_area(orig) + items_used@.len(),
                items_used@.len() == 0 ==> forall|i: int|
                    0 <= i < best_layouts@.len() ==> (#[trigger] best_layouts@[i]).placements@
                        == orig[i].placements@,
            ensures
                best_layouts@.len() == orig.len(),
                forall|i: int|
                    0 <= i < best_layouts@.len() ==> {
                        &&& (#[trigger] best_layouts@[i]).panel_type_id == orig[i].panel_type_id
                        &&& best_layouts@[i].panel_number == orig[i].panel_number
                        &&& best_layouts@[i].width == orig[i].width
                        &&& best_layouts@[i].height == orig[i].height
                        &&& best_layouts@[i].trimming == orig[i].trimming
                        &&& layout_wf(best_layouts@[i], self.kerf())
                    },
                layouts_placed_ids(best_layouts@) == layouts_placed_ids(orig).add(
                    string_views(items_used@).to_multiset(),
                ),
                total_placements(best_layouts@) == total_placements(orig) + items_used@.len(),
                items_used@.len() <= MAX_TOTAL_ITEMS,
                forall|i: int|
                    0 <= i < best_layouts@.len() ==> (#[trigger] best_layouts@[i]).placements@.len()
                        >= orig[i].placements@.len(),
                forall|i: int, pi: int|
                    0 <= i < best_layouts@.len() && 0 <= pi < orig[i].placements@.len()
                        ==> #[trigger] best_layouts@[i].placements@[pi]
                        == orig[i].placements@[pi],
                forall|i: int, pi: int|
                    0 <= i < best_layouts@.len() && orig[i].placements@.len() <= pi
                        < best_layouts@[i].placements@.len() ==> placement_from_declared_optional(
                        #[trigger] best_layouts@[i].placements@[pi],
                        self.request.panel_types@,
                    ),
                sum_used_area(best_layouts@) >= sum_used_area(orig) + items_used@.len(),
                items_used@.len() == 0 ==> forall|i: int|
                    0 <= i < best_layouts@.len() ==> (#[trigger] best_layouts@[i]).placements@
                        == orig[i].placements@,
                pool_covers(pool@, self.request.panel_types@),
                (self.request.min_reusable_remnant_size is None && items_used@.len() == 0) ==> forall|pi0: int, i0: int|
                    0 <= pi0 < pool@.len() && 0 <= i0 < orig.len() && orig[i0].panel_type_id@
                        == (#[trigger] pool@[pi0]).panel_type_id@ ==> optional_no_fit(
                        pool@[pi0].item,
                        #[trigger] orig[i0],
                        self.kerf(),
                    ),
            decreases MAX_TOTAL_ITEMS - items_used@.len(),
        {
            if items_used.len() as u64 >= MAX_TOTAL_ITEMS {
                break ;
            }
            let ghost entry_used = items_used@.len() as int;
            let mut made_progress = false;
            let pool_len = pool.len();
            let mut p_idx: usize = 0;
            while p_idx < pool_len && !made_progress
                invariant
                    self.wf(),
                    orig.len() <= MAX_TOTAL_ITEMS,
                    total_placements(orig) <= MAX_TOTAL_ITEMS,
                    forall|k: int|
                        0 <= k < pool@.len() ==> optional_item_ok((#[trigger] pool@[k]).item),
                    forall|k: int|
                        0 <= k < pool@.len() ==> pool_entry_declared(
                            #[trigger] pool@[k],
                            self.request.panel_types@,
                        ),
                    pool_len == pool@.len(),
                    0 <= p_idx <= pool_len,
                    best_layouts@.len() == orig.len(),
                    forall|i: int|
                        0 <= i < best_layouts@.len() ==> {
                            &&& (#[trigger] best_layouts@[i]).panel_type_id
                                == orig[i].panel_type_id
                            &&& best_layouts@[i].panel_number == orig[i].panel_number
                            &&& best_layouts@[i].width == orig[i].width
                            &&& best_layouts@[i].height == orig[i].height
                            &&& best_layouts@[i].trimming == orig[i].trimming
                            &&& layout_wf(best_layouts@[i], self.kerf())
                        },
                    layouts_placed_ids(best_layouts@) == layouts_placed_ids(orig).add(
                        string_views(items_used@).to_multiset(),
                    ),
                    total_placements(best_layouts@) == total_placements(orig)
                        + items_used@.len(),
                    items_used@.len() <= MAX_TOTAL_ITEMS,
                    forall|i: int|
                        0 <= i < best_layouts@.len() ==> (#[trigger] best_layouts@[i]).placements@.len()
                            >= orig[i].placements@.len(),
                    forall|i: int, pi: int|
                        0 <= i < best_layouts@.len() && 0 <= pi < orig[i].placements@.len()
                            ==> #[trigger] best_layouts@[i].placements@[pi]
                            == orig[i].placements@[pi],
                    forall|i: int, pi: int|
                        0 <= i < best_layouts@.len() && orig[i].placements@.len() <= pi
                            < best_layouts@[i].placements@.len() ==> placement_from_declared_optional(
                            #[trigger] best_layouts@[i].placements@[pi],
                            self.request.panel_types@,
                        ),
                    sum_used_area(best_layouts@) >= sum_used_area(orig) + items_used@.len(),
                    !made_progress ==> items_used@.len() == entry_used,
                    made_progress ==> items_used@.len() == entry_used + 1,
                    entry_used < MAX_TOTAL_ITEMS,
                    (self.request.min_reusable_remnant_size is None && items_used@.len() == 0)
                        ==> best_waste == sum_panel_area(orig) - sum_used_area(orig),
                    (self.request.min_reusable_remnant_size is None && items_used@.len() == 0 && !made_progress)
                        ==> forall|pi0: int, i0: int|
                        0 <= pi0 < p_idx && 0 <= i0 < orig.len() && orig[i0].panel_type_id@
                            == (#[trigger] pool@[pi0]).panel_type_id@ ==> optional_no_fit(
                            pool@[pi0].item,
                            #[trigger] orig[i0],
                            self.kerf(),
                        ),
                    items_used@.len() == 0 ==> forall|i: int|
                        0 <= i < best_layouts@.len() ==> (#[trigger] best_layouts@[i]).placements@
                            == orig[i].placements@,
                decreases pool_len - p_idx,
            {
                let test_item = self.optional_to_item(&pool[p_idx].item);
                let n_layouts = best_layouts.len();
                let mut l_idx: usize = 0;
                while l_idx < n_layouts && !made_progress
                    invariant
                        self.wf(),
                        orig.len() <= MAX_TOTAL_ITEMS,
                        total_placements(orig) <= MAX_TOTAL_ITEMS,
                        0 <= p_idx < pool@.len(),
                        optional_item_ok(pool@[p_idx as int].item),
                        item_ok(test_item),
                        test_item.id@ == pool@[p_idx as int].item.id@,
                        test_item.width == pool@[p_idx as int].item.width,
                        test_item.height == pool@[p_idx as int].item.height,
                        forall|k: int|
                            0 <= k < pool@.len() ==> pool_entry_declared(
                                #[trigger] pool@[k],
                                self.request.panel_types@,
                            ),
                        n_layouts == best_layouts@.len(),
                        0 <= l_idx <= n_layouts,
                        best_layouts@.len() == orig.len(),
                        forall|i: int|
                            0 <= i < best_layouts@.len() ==> {
                                &&& (#[trigger] best_layouts@[i]).panel_type_id
                                    == orig[i].panel_type_id
                                &&& best_layouts@[i].panel_number == orig[i].panel_number
                                &&& best_layouts@[i].width == orig[i].width
                                &&& best_layouts@[i].height == orig[i].height
                                &&& best_layouts@[i].trimming == orig[i].trimming
                                &&& layout_wf(best_layouts@[i], self.kerf())
                            },
                        layouts_placed_ids(best_layouts@) == layouts_placed_ids(orig).add(
                            string_views(items_used@).to_multiset(),
                        ),
                        total_placements(best_layouts@) == total_placements(orig)
                            + items_used@.len(),
                        items_used@.len() <= MAX_TOTAL_ITEMS,
                        forall|i: int|
                            0 <= i < best_layouts@.len() ==> (#[trigger] best_layouts@[i]).placements@.len()
                                >= orig[i].placements@.len(),
                        forall|i: int, pi: int|
                            0 <= i < best_layouts@.len() && 0 <= pi < orig[i].placements@.len()
                                ==> #[trigger] best_layouts@[i].placements@[pi]
                                == orig[i].placements@[pi],
                        forall|i: int, pi: int|
                            0 <= i < best_layouts@.len() && orig[i].placements@.len() <= pi
                                < best_layouts@[i].placements@.len() ==> placement_from_declared_optional(
                                #[trigger] best_layouts@[i].placements@[pi],
                                self.request.panel_types@,
                            ),
                        sum_used_area(best_layouts@) >= sum_used_area(orig) + items_used@.len(),
                        !made_progress ==> items_used@.len() == entry_used,
                        made_progress ==> items_used@.len() == entry_used + 1,
                        entry_used < MAX_TOTAL_ITEMS,
                        test_item.can_rotate == pool@[p_idx as int].item.can_rotate,
                        (self.request.min_reusable_remnant_size is None && items_used@.len() == 0)
                            ==> best_waste == sum_panel_area(orig) - sum_used_area(orig),
                        (self.request.min_reusable_remnant_size is None && items_used@.len() == 0 && !made_progress)
                            ==> forall|pi0: int, i0: int|
                            0 <= pi0 < pool@.len() && 0 <= i0 < orig.len() && (pi0 < p_idx || (
                            pi0 == p_idx && i0 < l_idx)) && orig[i0].panel_type_id@
                                == (#[trigger] pool@[pi0]).panel_type_id@ ==> optional_no_fit(
                                pool@[pi0].item,
                                #[trigger] orig[i0],
                                self.kerf(),
                            ),
                        items_used@.len() == 0 ==> forall|i: int|
                            0 <= i < best_layouts@.len()
                                ==> (#[trigger] best_layouts@[i]).placements@
                                == orig[i].placements@,
                    decreases n_layouts - l_idx,
                {
                    if best_layouts[l_idx].panel_type_id == pool[p_idx].panel_type_id {
                        let maybe_placement = self.try_place_item(
                            &test_item,
                            &best_layouts[l_idx],
                        );
                        if maybe_placement.is_none() {
                            proof {
                                if self.request.min_reusable_remnant_size is None
                                    && items_used@.len() == 0 && !made_progress {
                                    assert forall|pp: Placement|
                                        placement_matches_optional(
                                            pp,
                                            pool@[p_idx as int].item,
                                        ) implies !placement_fits_layout(
                                        pp,
                                        orig[l_idx as int],
                                        self.kerf(),
                                    ) by {
                                        assert(placement_matches_item(pp, test_item));
                                        if placement_fits_layout(
                                            pp,
                                            orig[l_idx as int],
                                            self.kerf(),
                                        ) {
                                            assert(usable_rect(best_layouts@[l_idx as int])
                                                == usable_rect(orig[l_idx as int]));
                                            assert(placement_ok(
                                                pp,
                                                best_layouts@[l_idx as int],
                                            ));
                                            assert forall|q: int|
                                                0 <= q < best_layouts@[l_idx as int].placements@
                                                    .len() implies !rects_overlap(
                                                expanded_rect(
                                                    placement_rect(
                                                        #[trigger] best_layouts@[l_idx as int]
                                                            .placements@[q],
                                                    ),
                                                    self.kerf(),
                                                ),
                                                placement_rect(pp),
                                            ) by {
                                                assert(best_layouts@[l_idx as int].placements@[q]
                                                    == orig[l_idx as int].placements@[q]);
                                            }
                                            assert(placement_fits_layout(
                                                pp,
                                                best_layouts@[l_idx as int],
                                                self.kerf(),
                                            ));
                                            assert(false);
                                        }
                                    }
                                    assert(optional_no_fit(
                                        pool@[p_idx as int].item,
                                        orig[l_idx as int],
                                        self.kerf(),
                                    ));
                                }
                            }
                        }
                        if let Some(placement) = maybe_placement {
                            // Insert tentatively; keep it only when the
                            // effective waste strictly improves. The panel
                            // count cannot change here.
                            let ghost pre_layouts = best_layouts@;
                            let ghost gp = placement;
                            let mut layout = best_layouts.remove(l_idx);
                            let ghost pre_layout = layout;
                            let ghost placed_id = placement.item_id@;
                            layout.placements.push(placement);
                            proof {
                                assert(layout.placements@.last() == gp);
                                lemma_push_placement_wf(pre_layout, layout, gp, self.kerf());
                            }
                            best_layouts.insert(l_idx, layout);
                            proof {
                                assert(best_layouts@ =~= pre_layouts.update(l_idx as int, layout));
                                lemma_total_placements_update(pre_layouts, l_idx as int, layout);
                                lemma_sum_used_update(pre_layouts, l_idx as int, layout);
                                lemma_sum_placement_push(pre_layout.placements@, gp);
                                assert(gp.width * gp.height >= 1) by (nonlinear_arith)
                                    requires
                                        gp.width >= 1,
                                        gp.height >= 1,
                                ;
                            }
                            let test_summary = self.calculate_summary(&best_layouts);
                            let test_waste: i64 = match test_summary.actual_waste_area {
                                Some(a) => a,
                                None => test_summary.waste_area,
                            };
                            if test_waste < best_waste {
                                // Commit.
                                best_waste = test_waste;
                                let ghost used_before = items_used@;
                                items_used.push(pool[p_idx].item.id.clone());
                                made_progress = true;
                                proof {
                                    broadcast use vstd::multiset::group_multiset_axioms;

                                    lemma_layout_ids_push(pre_layout, layout, gp);
                                    lemma_layouts_ids_update(
                                        pre_layouts,
                                        l_idx as int,
                                        layout,
                                        placed_id,
                                    );
                                    assert(string_views(items_used@) =~= string_views(
                                        used_before,
                                    ).push(placed_id));
                                    vstd::seq_lib::to_multiset_build(
                                        string_views(used_before),
                                        placed_id,
                                    );
                                    assert(string_views(items_used@).to_multiset()
                                        == string_views(used_before).push(placed_id).to_multiset());
                                    assert(string_views(items_used@).to_multiset()
                                        =~= string_views(used_before).to_multiset().insert(
                                        placed_id,
                                    ));
                                    assert(layouts_placed_ids(pre_layouts) == layouts_placed_ids(
                                        orig,
                                    ).add(string_views(used_before).to_multiset()));
                                    assert(layouts_placed_ids(orig).add(
                                        string_views(used_before).to_multiset(),
                                    ).insert(placed_id) =~= layouts_placed_ids(orig).add(
                                        string_views(items_used@).to_multiset(),
                                    ));
                                    assert(layouts_placed_ids(best_layouts@)
                                        =~= layouts_placed_ids(orig).add(
                                        string_views(items_used@).to_multiset(),
                                    ));
                                    // The inserted copy is a declared
                                    // optional item of the request.
                                    assert(pool_entry_declared(
                                        pool@[p_idx as int],
                                        self.request.panel_types@,
                                    ));
                                    let (t, o) = choose|t: int, o: int|
                                        0 <= t < self.request.panel_types@.len() && 0 <= o < (
                                        #[trigger] self.request.panel_types@[t]).optional_items@.len()
                                            && pool@[p_idx as int].panel_type_id@
                                            == self.request.panel_types@[t].id@ && pool@[p_idx as int].item
                                            == (
                                        #[trigger] self.request.panel_types@[t].optional_items@[o]);
                                    assert(placement_from_declared_optional(
                                        gp,
                                        self.request.panel_types@,
                                    )) by {
                                        assert(gp.item_id@ == self.request.panel_types@[t]
                                            .optional_items@[o].id@);
                                        assert(crate::model::dims_orbit(
                                            gp.width as int,
                                            gp.height as int,
                                            self.request.panel_types@[t].optional_items@[o].width
                                                as int,
                                            self.request.panel_types@[t].optional_items@[o].height
                                                as int,
                                        ));
                                    }
                                    assert forall|i: int, pi: int|
                                        0 <= i < best_layouts@.len() && 0 <= pi
                                            < orig[i].placements@.len()
                                        implies #[trigger] best_layouts@[i].placements@[pi]
                                        == orig[i].placements@[pi] by {
                                        if i != l_idx {
                                            assert(best_layouts@[i] == pre_layouts[i]);
                                        } else {
                                            assert(best_layouts@[i].placements@[pi]
                                                == pre_layouts[i].placements@[pi]);
                                        }
                                    }
                                    assert forall|i: int, pi: int|
                                        0 <= i < best_layouts@.len() && orig[i].placements@.len()
                                            <= pi < best_layouts@[i].placements@.len()
                                        implies placement_from_declared_optional(
                                        #[trigger] best_layouts@[i].placements@[pi],
                                        self.request.panel_types@,
                                    ) by {
                                        if i != l_idx {
                                            assert(best_layouts@[i] == pre_layouts[i]);
                                        } else {
                                            if pi < pre_layouts[i].placements@.len() {
                                                assert(best_layouts@[i].placements@[pi]
                                                    == pre_layouts[i].placements@[pi]);
                                            } else {
                                                assert(best_layouts@[i].placements@[pi] == gp);
                                            }
                                        }
                                    }
                                    lemma_sum_used_update(pre_layouts, l_idx as int, layout);
                                    lemma_sum_placement_push(pre_layout.placements@, gp);
                                    assert(gp.width * gp.height >= 1) by (nonlinear_arith)
                                        requires
                                            gp.width >= 1,
                                            gp.height >= 1,
                                    ;
                                }
                            } else {
                                // Revert the tentative insertion.
                                let mut layout2 = best_layouts.remove(l_idx);
                                let _ = layout2.placements.pop();
                                best_layouts.insert(l_idx, layout2);
                                proof {
                                    // In the plain-waste mode the insertion
                                    // strictly lowered the waste, so the
                                    // test above cannot have rejected it.
                                    if self.request.min_reusable_remnant_size is None
                                        && items_used@.len() == 0 {
                                        let ghost pushed = pre_layouts.update(l_idx as int, layout);
                                        assert forall|i: int|
                                            0 <= i < pre_layouts.len() implies (
                                        #[trigger] pre_layouts[i]).placements@
                                            == orig[i].placements@ by {}
                                        lemma_sum_used_pointwise(pre_layouts, orig);
                                        assert forall|i: int|
                                            0 <= i < pushed.len() implies (
                                        #[trigger] pushed[i]).width == orig[i].width
                                            && pushed[i].height == orig[i].height by {
                                            if i != l_idx {
                                                assert(pushed[i] == pre_layouts[i]);
                                            }
                                        }
                                        lemma_sum_panel_pointwise(pushed, orig);
                                        assert(sum_used_area(pushed) == sum_used_area(orig)
                                            + gp.width * gp.height);
                                        assert(test_summary.waste_area == sum_panel_area(orig)
                                            - sum_used_area(orig) - gp.width * gp.height);
                                        assert(test_waste < best_waste);
                                        assert(false);
                                    }
                                    assert(layout2.placements@ =~= pre_layout.placements@);
                                    assert forall|i: int|
                                        0 <= i < best_layouts@.len() implies (
                                    #[trigger] best_layouts@[i]).placements@
                                        == pre_layouts[i].placements@ by {
                                        if i != l_idx {
                                            assert(best_layouts@[i] == pre_layouts[i]);
                                        }
                                    }
                                    assert forall|i: int|
                                        0 <= i < best_layouts@.len() implies {
                                        &&& (#[trigger] best_layouts@[i]).panel_type_id
                                            == orig[i].panel_type_id
                                        &&& best_layouts@[i].panel_number == orig[i].panel_number
                                        &&& best_layouts@[i].width == orig[i].width
                                        &&& best_layouts@[i].height == orig[i].height
                                        &&& best_layouts@[i].trimming == orig[i].trimming
                                        &&& layout_wf(best_layouts@[i], self.kerf())
                                    } by {
                                        if i != l_idx {
                                            assert(best_layouts@[i] == pre_layouts[i]);
                                        }
                                    }
                                    lemma_ids_congruent(best_layouts@, pre_layouts);
                                    lemma_placements_congruent(best_layouts@, pre_layouts);
                                    lemma_sum_used_pointwise(best_layouts@, pre_layouts);
                                    assert forall|i: int, pi: int|
                                        0 <= i < best_layouts@.len() && 0 <= pi
                                            < orig[i].placements@.len()
                                        implies #[trigger] best_layouts@[i].placements@[pi]
                                        == orig[i].placements@[pi] by {
                                        assert(best_layouts@[i].placements@
                                            == pre_layouts[i].placements@);
                                    }
                                    assert forall|i: int, pi: int|
                                        0 <= i < best_layouts@.len() && orig[i].placements@.len()
                                            <= pi < best_layouts@[i].placements@.len()
                                        implies placement_from_declared_optional(
                                        #[trigger] best_layouts@[i].placements@[pi],
                                        self.request.panel_types@,
                                    ) by {
                                        assert(best_layouts@[i].placements@
                                            == pre_layouts[i].placements@);
                                        assert(best_layouts@[i].placements@[pi]
                                            == pre_layouts[i].placements@[pi]);
                                    }
                                }
                            }
                        }
                    } else {
                        proof {
                            assert(best_layouts@[l_idx as int].panel_type_id@
                                != pool@[p_idx as int].panel_type_id@);
                            assert(orig[l_idx as int].panel_type_id@
                                != pool@[p_idx as int].panel_type_id@);
                        }
                    }
                    proof {
                        if self.request.min_reusable_remnant_size is None && items_used@.len()
                            == 0 && !made_progress {
                            assert forall|pi0: int, i0: int|
                                0 <= pi0 < pool@.len() && 0 <= i0 < orig.len() && (pi0 < p_idx
                                    || (pi0 == p_idx && i0 < l_idx + 1)) && orig[i0].panel_type_id@
                                    == (#[trigger] pool@[pi0]).panel_type_id@
                                implies optional_no_fit(
                                pool@[pi0].item,
                                #[trigger] orig[i0],
                                self.kerf(),
                            ) by {}
                        }
                    }
                    l_idx += 1;
                }
                proof {
                    if self.request.min_reusable_remnant_size is None && items_used@.len() == 0
                        && !made_progress {
                        assert(l_idx == n_layouts);
                        assert forall|pi0: int, i0: int|
                            0 <= pi0 < p_idx + 1 && 0 <= i0 < orig.len() && orig[i0]
                                .panel_type_id@ == (#[trigger] pool@[pi0]).panel_type_id@
                            implies optional_no_fit(
                            pool@[pi0].item,
                            #[trigger] orig[i0],
                            self.kerf(),
                        ) by {}
                    }
                }
                p_idx += 1;
            }
            if !made_progress {
                break ;
            }
        }
        proof {
            // A non-empty pool names a declared optional item, and the loop
            // only starts past the waste threshold.
            if no_declared_optionals(self.request.panel_types@) {
                assert(pool_entry_declared(pool@[0], self.request.panel_types@));
                assert(false);
            }
            if self.request.min_reusable_remnant_size is None {
                assert(effective_waste_pct == spec_percentage(
                    sum_panel_area(orig) - sum_used_area(orig),
                    sum_panel_area(orig),
                ));
            }
            // When something could still be inserted in the plain-waste
            // mode, the scan found and kept it.
            if self.request.min_reusable_remnant_size is None && some_optional_insertable(
                self.request.panel_types@,
                orig,
                self.kerf(),
            ) && items_used@.len() == 0 {
                let (t, o, i) = choose|t: int, o: int, i: int|
                    #![trigger self.request.panel_types@[t].optional_items@[o], orig[i]]
                    0 <= t < self.request.panel_types@.len() && 0 <= o
                        < self.request.panel_types@[t].optional_items@.len() && 0 <= i
                        < orig.len() && orig[i].panel_type_id@
                        == self.request.panel_types@[t].id@ && !optional_no_fit(
                        self.request.panel_types@[t].optional_items@[o],
                        orig[i],
                        self.kerf(),
                    );
                assert(pool_has_entry(
                    pool@,
                    self.request.panel_types@[t].id@,
                    self.request.panel_types@[t].optional_items@[o],
                ));
                let k = choose|k: int|
                    0 <= k < pool@.len() && (#[trigger] pool@[k]).panel_type_id@
                        == self.request.panel_types@[t].id@ && pool@[k].item
                        == self.request.panel_types@[t].optional_items@[o];
                assert(orig[i].panel_type_id@ == pool@[k].panel_type_id@);
                assert(optional_no_fit(pool@[k].item, orig[i], self.kerf()));
                assert(false);
            }
        }
        (best_layouts, items_used)
    }
}

/// Adding no optional items leaves the placed identifiers untouched.
proof fn lemma_no_optionals(ls: Seq<PanelLayout>)
    ensures
        layouts_placed_ids(ls) == layouts_placed_ids(ls).add(
            string_views(Seq::<String>::empty()).to_multiset(),
        ),
        total_placements(ls) == total_placements(ls) + string_views(
            Seq::<String>::empty(),
        ).to_multiset().len(),
{
    broadcast use vstd::seq_lib::group_to_multiset_ensures;

    assert(string_views(Seq::<String>::empty()) =~= Seq::<Seq<char>>::empty());
    vstd::seq_lib::to_multiset_len(Seq::<Seq<char>>::empty());
    assert(string_views(Seq::<String>::empty()).to_multiset().len() == 0);
    assert(layouts_placed_ids(ls).add(string_views(Seq::<String>::empty()).to_multiset())
        =~= layouts_placed_ids(ls));
}

/// Two layout lists whose members agree pointwise on their placements
/// carry the same identifiers.
proof fn lemma_ids_congruent(ls1: Seq<PanelLayout>, ls2: Seq<PanelLayout>)
    requires
        ls1.len() == ls2.len(),
        forall|i: int| 0 <= i < ls1.len() ==> (#[trigger] ls1[i]).placements@ == (
        #[trigger] ls2[i]).placements@,
    ensures
        layouts_placed_ids(ls1) == layouts_placed_ids(ls2),
    decreases ls1.len(),
{
    if ls1.len() > 0 {
        lemma_ids_congruent(ls1.drop_last(), ls2.drop_last());
    }
}

/// ... and the same number of placements.
proof fn lemma_placements_congruent(ls1: Seq<PanelLayout>, ls2: Seq<PanelLayout>)
    requires
        ls1.len() == ls2.len(),
        forall|i: int| 0 <= i < ls1.len() ==> (#[trigger] ls1[i]).placements@ == (
        #[trigger] ls2[i]).placements@,
    ensures
        total_placements(ls1) == total_placements(ls2),
    decreases ls1.len(),
{
    if ls1.len() > 0 {
        lemma_placements_congruent(ls1.drop_last(), ls2.drop_last());
    }
}

} // verus!

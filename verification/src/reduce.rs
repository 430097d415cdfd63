//! The panel-reduction pass: after a packing strategy completes, try to
//! evacuate the least-used panel by redistributing its pieces over the
//! remaining panels; repeat until an evacuation fails or one panel is left,
//! then renumber each type's panels from one.

use vstd::prelude::*;
use vstd::multiset::Multiset;

use crate::cloning::clone_layout;
use crate::geom::{layout_wf, placement_ok};
use crate::items::{sort_items, SortOrder};
use crate::model::item_ids;
use crate::model::{
    carried_by_some, count_type_prefix, dims_orbit, first_placements_at_corner, layout_equiv,
    layout_of_type, layouts_from_types, layouts_placed_ids, lemma_carry_pointwise,
    lemma_carry_update, lemma_count_prefix_equiv, lemma_ids_len, lemma_layout_ids_push,
    lemma_layouts_ids_equiv, lemma_layouts_ids_remove, lemma_layouts_ids_update,
    lemma_push_placement_wf, numbering_canonical, placement_carries_item, placement_ids,
    placements_carry_items, placement_matches_item,
};
use crate::optimizer::Optimizer;
use crate::summary::{sum_placement_area, total_placements};
use crate::types::{item_ok, Item, PanelLayout, MAX_DIM, MAX_TOTAL_ITEMS};

verus! {

/// The item describes the same physical piece as one of the listed items.
pub open spec fn item_carried_by_some(it: Item, items: Seq<Item>) -> bool {
    exists|k: int|
        0 <= k < items.len() && it.id@ == (#[trigger] items[k]).id@ && dims_orbit(
            it.width as int,
            it.height as int,
            items[k].width as int,
            items[k].height as int,
        )
}

/// Recovers the rotation permission of a placed item by its identifier.
fn lookup_can_rotate(items: &Vec<Item>, id: &String) -> bool {
    let n = items.len();
    let mut j: usize = 0;
    while j < n
        invariant
            n == items@.len(),
            0 <= j <= n,
        decreases n - j,
    {
        if items[j].id == *id {
            return items[j].can_rotate;
        }
        j += 1;
    }
    false
}

/// Total placed area on one layout.
fn placed_area(l: &PanelLayout) -> (r: i64)
    requires
        crate::geom::layout_bounded(*l),
        forall|i: int| 0 <= i < l.placements@.len() ==> placement_ok(#[trigger] l.placements@[i], *l),
        l.placements@.len() <= 2 * MAX_TOTAL_ITEMS,
    ensures
        r == sum_placement_area(l.placements@),
{
    let m = l.placements.len();
    let mut k: usize = 0;
    let mut area: i64 = 0;
    while k < m
        invariant
            m == l.placements@.len(),
            m <= 2 * MAX_TOTAL_ITEMS,
            0 <= k <= m,
            crate::geom::layout_bounded(*l),
            forall|i: int|
                0 <= i < l.placements@.len() ==> placement_ok(#[trigger] l.placements@[i], *l),
            area == sum_placement_area(l.placements@.take(k as int)),
            0 <= area <= k * 1_000_000_000_000,
        decreases m - k,
    {
        let p = &l.placements[k];
        proof {
            assert(placement_ok(l.placements@[k as int], *l));
            assert(1 <= p.width * p.height <= 1_000_000_000_000) by (nonlinear_arith)
                requires
                    1 <= p.width <= MAX_DIM,
                    1 <= p.height <= MAX_DIM,
            ;
            assert(l.placements@.take(k + 1).drop_last() =~= l.placements@.take(k as int));
            assert(l.placements@.take(k + 1).last() == l.placements@[k as int]);
        }
        area += p.width * p.height;
        k += 1;
    }
    proof {
        assert(l.placements@.take(m as int) =~= l.placements@);
    }
    area
}

/// Renumbers each type's panels 1, 2, ... in list order; everything else is
/// left untouched.
fn renumber_layouts(layouts: Vec<PanelLayout>) -> (r: Vec<PanelLayout>)
    requires
        layouts@.len() <= MAX_TOTAL_ITEMS,
    ensures
        r@.len() == layouts@.len(),
        forall|i: int|
            0 <= i < r@.len() ==> {
                &&& (#[trigger] r@[i]).panel_type_id == layouts@[i].panel_type_id
                &&& r@[i].width == layouts@[i].width
                &&& r@[i].height == layouts@[i].height
                &&& r@[i].trimming == layouts@[i].trimming
                &&& r@[i].placements@ == layouts@[i].placements@
                &&& r@[i].unused_areas@ == layouts@[i].unused_areas@
            },
        numbering_canonical(r@),
{
    let ghost orig = layouts@;
    let mut layouts = layouts;
    let n = layouts.len();
    let mut i: usize = 0;
    while i < n
        invariant
            n == layouts@.len(),
            n <= MAX_TOTAL_ITEMS,
            0 <= i <= n,
            orig.len() == n,
            forall|k: int|
                0 <= k < n ==> {
                    &&& (#[trigger] layouts@[k]).panel_type_id == orig[k].panel_type_id
                    &&& layouts@[k].width == orig[k].width
                    &&& layouts@[k].height == orig[k].height
                    &&& layouts@[k].trimming == orig[k].trimming
                    &&& layouts@[k].placements@ == orig[k].placements@
                    &&& layouts@[k].unused_areas@ == orig[k].unused_areas@
                },
            forall|k: int|
                0 <= k < i ==> (#[trigger] layouts@[k]).panel_number as int == count_type_prefix(
                    layouts@,
                    k + 1,
                    layouts@[k].panel_type_id@,
                ),
        decreases n - i,
    {
        let mut count: u32 = 0;
        let mut j: usize = 0;
        while j < i
            invariant
                n == layouts@.len(),
                n <= MAX_TOTAL_ITEMS,
                0 <= j <= i < n,
                count as int == count_type_prefix(
                    layouts@,
                    j as int,
                    layouts@[i as int].panel_type_id@,
                ),
                count <= j,
            decreases i - j,
        {
            if layouts[j].panel_type_id == layouts[i].panel_type_id {
                count += 1;
            }
            j += 1;
        }
        let ghost before = layouts@;
        let mut layout = layouts.remove(i);
        layout.panel_number = count + 1;
        layouts.insert(i, layout);
        proof {
            assert(layouts@ =~= before.update(i as int, layout));
            assert forall|k: int| 0 <= k < i + 1 implies (
            #[trigger] layouts@[k]).panel_number as int == count_type_prefix(
                layouts@,
                k + 1,
                layouts@[k].panel_type_id@,
            ) by {
                lemma_count_prefix_equiv(before, layouts@, k + 1, layouts@[k].panel_type_id@);
                if k < i {
                    assert(layouts@[k] == before[k]);
                }
            }
        }
        i += 1;
    }
    layouts
}

impl Optimizer {
    /// Repeatedly evacuates the panel with the least placed area into the
    /// remaining panels; stops when an evacuation fails or a single panel
    /// remains, then renumbers each type's panels. The placed items are
    /// exactly preserved.
    pub(crate) fn reduce_panels(&self, layouts: Vec<PanelLayout>, expanded_items: &Vec<Item>) -> (r:
        Vec<PanelLayout>)
        requires
            self.wf(),
            forall|i: int| 0 <= i < layouts@.len() ==> layout_wf(#[trigger] layouts@[i], self.kerf()),
            numbering_canonical(layouts@),
            layouts_from_types(layouts@, self.request.panel_types@),
            placements_carry_items(layouts@, expanded_items@),
            first_placements_at_corner(layouts@),
            forall|i: int| 0 <= i < layouts@.len() ==> (#[trigger] layouts@[i]).placements@.len() >= 1,
            layouts@.len() <= MAX_TOTAL_ITEMS,
            total_placements(layouts@) <= MAX_TOTAL_ITEMS,
        ensures
            forall|i: int| 0 <= i < r@.len() ==> layout_wf(#[trigger] r@[i], self.kerf()),
            numbering_canonical(r@),
            layouts_from_types(r@, self.request.panel_types@),
            layouts_placed_ids(r@) == layouts_placed_ids(layouts@),
            placements_carry_items(r@, expanded_items@),
            first_placements_at_corner(r@),
            forall|i: int| 0 <= i < r@.len() ==> (#[trigger] r@[i]).placements@.len() >= 1,
            total_placements(r@) == total_placements(layouts@),
            r@.len() <= layouts@.len(),
            layouts@.len() >= 1 ==> r@.len() >= 1,
            layouts@.len() <= 1 ==> r@ == layouts@,
    {
        let ghost types = self.request.panel_types@;
        let mut current = layouts;
        loop
            invariant
                self.wf(),
                types == self.request.panel_types@,
                forall|i: int|
                    0 <= i < current@.len() ==> layout_wf(#[trigger] current@[i], self.kerf()),
                numbering_canonical(current@),
                layouts_from_types(current@, types),
                layouts_placed_ids(current@) == layouts_placed_ids(layouts@),
                placements_carry_items(current@, expanded_items@),
                first_placements_at_corner(current@),
                forall|i: int|
                    0 <= i < current@.len() ==> (#[trigger] current@[i]).placements@.len() >= 1,
                total_placements(current@) == total_placements(layouts@),
                current@.len() <= layouts@.len(),
                layouts@.len() >= 1 ==> current@.len() >= 1,
                layouts@.len() <= 1 ==> current@ == layouts@,
                layouts@.len() <= MAX_TOTAL_ITEMS,
                total_placements(layouts@) <= MAX_TOTAL_ITEMS,
            ensures
                forall|i: int|
                    0 <= i < current@.len() ==> layout_wf(#[trigger] current@[i], self.kerf()),
                numbering_canonical(current@),
                layouts_from_types(current@, types),
                layouts_placed_ids(current@) == layouts_placed_ids(layouts@),
                placements_carry_items(current@, expanded_items@),
                first_placements_at_corner(current@),
                forall|i: int|
                    0 <= i < current@.len() ==> (#[trigger] current@[i]).placements@.len() >= 1,
                total_placements(current@) == total_placements(layouts@),
                current@.len() <= layouts@.len(),
                layouts@.len() >= 1 ==> current@.len() >= 1,
                layouts@.len() <= 1 ==> current@ == layouts@,
            decreases current@.len(),
        {
            let n_panels = current.len();
            if n_panels <= 1 {
                break ;
            }

            // The panel with the least placed area is the evacuation
            // candidate.
            let mut min_idx: usize = 0;
            let mut min_area: i64 = 0;
            let mut idx: usize = 0;
            while idx < n_panels
                invariant
                    self.wf(),
                    n_panels == current@.len(),
                    0 <= idx <= n_panels,
                    1 < n_panels,
                    idx > 0 ==> min_idx < n_panels,
                    idx == 0 ==> min_idx == 0,
                    min_idx < n_panels,
                    forall|i: int|
                        0 <= i < current@.len() ==> layout_wf(#[trigger] current@[i], self.kerf()),
                    total_placements(current@) == total_placements(layouts@),
                    total_placements(layouts@) <= MAX_TOTAL_ITEMS,
                decreases n_panels - idx,
            {
                proof {
                    crate::summary::lemma_total_placements_elem(current@, idx as int);
                }
                let area = placed_area(&current[idx]);
                if idx == 0 || area < min_area {
                    min_idx = idx;
                    min_area = area;
                }
                idx += 1;
            }

            // Reconstruct the items of the evacuated panel, un-rotating
            // their dimensions and recovering the rotation permission from
            // the expanded items.
            let removed_placements_len = current[min_idx].placements.len();
            let mut items: Vec<Item> = Vec::new();
            let mut k: usize = 0;
            while k < removed_placements_len
                invariant
                    self.wf(),
                    0 <= min_idx < current@.len(),
                    removed_placements_len == current@[min_idx as int].placements@.len(),
                    0 <= k <= removed_placements_len,
                    forall|i: int|
                        0 <= i < current@.len() ==> layout_wf(#[trigger] current@[i], self.kerf()),
                    item_ids(items@) =~= placement_ids(
                        current@[min_idx as int].placements@.take(k as int),
                    ),
                    forall|i: int| 0 <= i < items@.len() ==> item_ok(#[trigger] items@[i]),
                    placements_carry_items(current@, expanded_items@),
                    forall|i: int|
                        0 <= i < items@.len() ==> item_carried_by_some(
                            #[trigger] items@[i],
                            expanded_items@,
                        ),
                decreases removed_placements_len - k,
            {
                let p = &current[min_idx].placements[k];
                let can_rotate = lookup_can_rotate(expanded_items, &p.item_id);
                let (w, h) = if p.rotated {
                    (p.height, p.width)
                } else {
                    (p.width, p.height)
                };
                proof {
                    assert(placement_ok(
                        current@[min_idx as int].placements@[k as int],
                        current@[min_idx as int],
                    ));
                }
                let ghost items_before = items@;
                items.push(Item { id: p.item_id.clone(), width: w, height: h, quantity: 1, can_rotate });
                proof {
                    assert(carried_by_some(
                        current@[min_idx as int].placements@[k as int],
                        expanded_items@,
                    ));
                    let src = choose|j: int|
                        0 <= j < expanded_items@.len() && placement_carries_item(
                            current@[min_idx as int].placements@[k as int],
                            #[trigger] expanded_items@[j],
                        );
                    assert(item_carried_by_some(items@[items@.len() - 1], expanded_items@)) by {
                        assert(items@[items@.len() - 1].id@ == expanded_items@[src].id@);
                        assert(dims_orbit(
                            items@[items@.len() - 1].width as int,
                            items@[items@.len() - 1].height as int,
                            expanded_items@[src].width as int,
                            expanded_items@[src].height as int,
                        ));
                    }
                    assert(item_ids(items@) =~= item_ids(items_before).push(
                        current@[min_idx as int].placements@[k as int].item_id@,
                    ));
                    assert(placement_ids(current@[min_idx as int].placements@.take(k + 1))
                        =~= placement_ids(
                        current@[min_idx as int].placements@.take(k as int),
                    ).push(current@[min_idx as int].placements@[k as int].item_id@));
                    assert(item_ids(items@) =~= placement_ids(
                        current@[min_idx as int].placements@.take(k + 1),
                    ));
                }
                k += 1;
            }
            proof {
                assert(current@[min_idx as int].placements@.take(removed_placements_len as int)
                    =~= current@[min_idx as int].placements@);
            }
            let ghost rebuilt = items@;

            // Largest pieces first.
            sort_items(&mut items, SortOrder::AreaDesc);
            proof {
                crate::items::lemma_map_values_multiset(items@, rebuilt, |it: Item| it.id@);
                assert forall|i: int| 0 <= i < items@.len() implies item_carried_by_some(
                    #[trigger] items@[i],
                    expanded_items@,
                ) by {
                    assert(rebuilt.contains(items@[i]));
                    let j = choose|j: int| 0 <= j < rebuilt.len() && rebuilt[j] == items@[i];
                    assert(item_carried_by_some(rebuilt[j], expanded_items@));
                    let src = choose|m: int|
                        0 <= m < expanded_items@.len() && rebuilt[j].id@ == (
                        #[trigger] expanded_items@[m]).id@ && dims_orbit(
                            rebuilt[j].width as int,
                            rebuilt[j].height as int,
                            expanded_items@[m].width as int,
                            expanded_items@[m].height as int,
                        );
                    assert(items@[i].id@ == expanded_items@[src].id@);
                }
            }

            // The trial plan: a copy of every other panel.
            let ghost target = current@.remove(min_idx as int);
            let mut trial: Vec<PanelLayout> = Vec::new();
            let mut t: usize = 0;
            while t < n_panels
                invariant
                    self.wf(),
                    n_panels == current@.len(),
                    0 <= t <= n_panels,
                    0 <= min_idx < n_panels,
                    target == current@.remove(min_idx as int),
                    forall|i: int|
                        0 <= i < current@.len() ==> layout_wf(#[trigger] current@[i], self.kerf()),
                    trial@.len() == if t <= min_idx {
                        t as int
                    } else {
                        t - 1
                    },
                    forall|j: int|
                        0 <= j < trial@.len() ==> layout_equiv(#[trigger] trial@[j], target[j]),
                decreases n_panels - t,
            {
                if t != min_idx {
                    let copy = clone_layout(&current[t]);
                    trial.push(copy);
                    proof {
                        if t < min_idx {
                            assert(target[trial@.len() - 1] == current@[t as int]);
                        } else {
                            assert(target[trial@.len() - 1] == current@[t as int]);
                        }
                    }
                }
                t += 1;
            }
            proof {
                lemma_layouts_ids_equiv(trial@, target);
                lemma_layouts_ids_remove(current@, min_idx as int);
                assert forall|i: int| 0 <= i < trial@.len() implies layout_wf(
                    #[trigger] trial@[i],
                    self.kerf(),
                ) by {
                    assert(layout_equiv(trial@[i], target[i]));
                    assert(layout_wf(target[i], self.kerf()));
                }
                assert forall|i: int| #![trigger trial@[i]] 0 <= i < trial@.len()
                    implies exists|j: int|
                    0 <= j < types.len() && layout_of_type(trial@[i], #[trigger] types[j]) by {
                    let j = choose|j: int|
                        0 <= j < types.len() && layout_of_type(target[i], #[trigger] types[j]);
                    assert(layout_of_type(trial@[i], types[j]));
                }
                assert forall|l: int, pi: int|
                    0 <= l < target.len() && 0 <= pi < target[l].placements@.len()
                        implies carried_by_some(
                    #[trigger] target[l].placements@[pi],
                    expanded_items@,
                ) by {
                    if l < min_idx {
                        assert(target[l] == current@[l]);
                    } else {
                        assert(target[l] == current@[l + 1]);
                    }
                }
                lemma_carry_pointwise(target, trial@, expanded_items@);
                assert forall|i: int|
                    0 <= i < trial@.len() && (#[trigger] trial@[i]).placements@.len() >= 1
                    implies trial@[i].placements@[0].x == trial@[i].trimming
                        && trial@[i].placements@[0].y == trial@[i].trimming by {
                    if i < min_idx {
                        assert(target[i] == current@[i]);
                    } else {
                        assert(target[i] == current@[i + 1]);
                    }
                    assert(trial@[i].placements@ == target[i].placements@);
                    assert(trial@[i].trimming == target[i].trimming);
                }
                assert forall|i: int| 0 <= i < trial@.len() implies (
                #[trigger] trial@[i]).placements@.len() >= 1 by {
                    if i < min_idx {
                        assert(target[i] == current@[i]);
                    } else {
                        assert(target[i] == current@[i + 1]);
                    }
                    assert(trial@[i].placements@ == target[i].placements@);
                }
            }
            let ghost trial_start_ids = layouts_placed_ids(trial@);
            let ghost removed_ms = crate::model::layout_ids_ms(current@[min_idx as int]);
            proof {
                broadcast use vstd::multiset::group_multiset_axioms;

                assert(items@.take(0) =~= Seq::<Item>::empty());
                assert(item_ids(Seq::<Item>::empty()) =~= Seq::<Seq<char>>::empty());
                vstd::seq_lib::to_multiset_len(Seq::<Seq<char>>::empty());
                assert(item_ids(items@.take(0)).to_multiset()
                    =~= Multiset::<Seq<char>>::empty());
                assert(trial_start_ids.add(item_ids(items@.take(0)).to_multiset())
                    =~= trial_start_ids);
            }

            // Redistribute every evacuated item into the remaining panels.
            let n_items = items.len();
            let mut failed = false;
            let mut it_idx: usize = 0;
            while it_idx < n_items && !failed
                invariant
                    self.wf(),
                    types == self.request.panel_types@,
                    n_items == items@.len(),
                    0 <= it_idx <= n_items,
                    1 < n_panels,
                    trial@.len() == n_panels - 1,
                    forall|i: int| 0 <= i < items@.len() ==> item_ok(#[trigger] items@[i]),
                    forall|i: int|
                        0 <= i < items@.len() ==> item_carried_by_some(
                            #[trigger] items@[i],
                            expanded_items@,
                        ),
                    forall|i: int|
                        0 <= i < trial@.len() ==> layout_wf(#[trigger] trial@[i], self.kerf()),
                    placements_carry_items(trial@, expanded_items@),
                    first_placements_at_corner(trial@),
                    forall|i: int|
                        0 <= i < trial@.len() ==> (#[trigger] trial@[i]).placements@.len() >= 1,
                    layouts_from_types(trial@, types),
                    !failed ==> layouts_placed_ids(trial@) == trial_start_ids.add(
                        item_ids(items@.take(it_idx as int)).to_multiset(),
                    ),
                decreases n_items - it_idx,
            {
                let item = &items[it_idx];
                let mut best_fit: Option<(usize, crate::types::Placement)> = None;
                let mut best_score: i128 = 0;
                let n_layouts = trial.len();
                let mut l_idx: usize = 0;
                while l_idx < n_layouts
                    invariant
                        self.wf(),
                        item_ok(*item),
                        n_layouts == trial@.len(),
                        0 <= l_idx <= n_layouts,
                        forall|i: int|
                            0 <= i < trial@.len() ==> layout_wf(#[trigger] trial@[i], self.kerf()),
                        best_fit matches Some((idx, p)) ==> {
                            &&& 0 <= (idx as int) < trial@.len()
                            &&& placement_matches_item(p, *item)
                            &&& crate::model::placement_fits_layout(
                                p,
                                trial@[idx as int],
                                self.kerf(),
                            )
                        },
                    decreases n_layouts - l_idx,
                {
                    let (found, _) = self.find_best_placement(item, &trial[l_idx]);
                    if let Some((placement, score)) = found {
                        proof {
                            assert((l_idx as int) * 10_000_000 <= 0xffffffffffffffff * 10_000_000)
                                by (nonlinear_arith)
                                requires
                                    0 <= l_idx <= 0xffffffffffffffff,
                            ;
                        }
                        let adjusted = if self.request.min_initial_usage {
                            score + (l_idx as i128) * 10_000_000
                        } else {
                            score
                        };
                        let replace = match &best_fit {
                            None => true,
                            Some(_) => adjusted < best_score,
                        };
                        if replace {
                            best_fit = Some((l_idx, placement));
                            best_score = adjusted;
                        }
                    }
                    l_idx += 1;
                }

                if let Some((idx, placement)) = best_fit {
                    broadcast use vstd::seq_lib::group_to_multiset_ensures;

                    let ghost pre_trial = trial@;
                    let ghost gp = placement;
                    let mut layout = trial.remove(idx);
                    let ghost pre_layout = layout;
                    layout.placements.push(placement);
                    proof {
                        lemma_push_placement_wf(pre_layout, layout, gp, self.kerf());
                        lemma_layout_ids_push(pre_layout, layout, gp);
                    }
                    trial.insert(idx, layout);
                    proof {
                        broadcast use vstd::multiset::group_multiset_axioms;

                        assert(trial@ =~= pre_trial.update(idx as int, layout));
                        lemma_layouts_ids_update(pre_trial, idx as int, layout, gp.item_id@);
                        assert(item_carried_by_some(items@[it_idx as int], expanded_items@));
                        let src = choose|m: int|
                            0 <= m < expanded_items@.len() && items@[it_idx as int].id@ == (
                            #[trigger] expanded_items@[m]).id@ && dims_orbit(
                                items@[it_idx as int].width as int,
                                items@[it_idx as int].height as int,
                                expanded_items@[m].width as int,
                                expanded_items@[m].height as int,
                            );
                        assert(placement_carries_item(gp, expanded_items@[src]));
                        assert(carried_by_some(gp, expanded_items@));
                        lemma_carry_update(pre_trial, idx as int, layout, gp, expanded_items@);
                        assert forall|i: int| 0 <= i < trial@.len() implies (
                        #[trigger] trial@[i]).placements@.len() >= 1 by {
                            if i != idx {
                                assert(trial@[i] == pre_trial[i]);
                            }
                        }
                        assert forall|i: int|
                            0 <= i < trial@.len() && (#[trigger] trial@[i]).placements@.len() >= 1
                            implies trial@[i].placements@[0].x == trial@[i].trimming
                                && trial@[i].placements@[0].y == trial@[i].trimming by {
                            if i != idx {
                                assert(trial@[i] == pre_trial[i]);
                            } else {
                                assert(trial@[i].placements@[0] == pre_trial[i].placements@[0]);
                                assert(trial@[i].trimming == pre_trial[i].trimming);
                            }
                        }
                        assert(item_ids(items@.take(it_idx + 1)) =~= item_ids(
                            items@.take(it_idx as int),
                        ).push(items@[it_idx as int].id@));
                        vstd::seq_lib::to_multiset_build(
                            item_ids(items@.take(it_idx as int)),
                            items@[it_idx as int].id@,
                        );
                        assert(trial_start_ids.add(
                            item_ids(items@.take(it_idx as int)).to_multiset(),
                        ).insert(gp.item_id@) =~= trial_start_ids.add(
                            item_ids(items@.take(it_idx + 1)).to_multiset(),
                        ));
                        assert forall|i: int| #![trigger trial@[i]] 0 <= i < trial@.len()
                            implies exists|j: int|
                            0 <= j < types.len() && layout_of_type(
                                trial@[i],
                                #[trigger] types[j],
                            ) by {
                            let j = choose|j: int|
                                0 <= j < types.len() && layout_of_type(
                                    pre_trial[i],
                                    #[trigger] types[j],
                                );
                            assert(layout_of_type(trial@[i], types[j]));
                        }
                        assert forall|i: int| 0 <= i < trial@.len() implies layout_wf(
                            #[trigger] trial@[i],
                            self.kerf(),
                        ) by {
                            if i != idx {
                                assert(trial@[i] == pre_trial[i]);
                            }
                        }
                    }
                } else {
                    failed = true;
                }
                it_idx += 1;
            }

            if failed {
                break ;
            }

            // All items were rehoused: adopt the smaller plan.
            proof {
                broadcast use vstd::multiset::group_multiset_axioms;

                assert(items@.take(n_items as int) =~= items@);
                assert(item_ids(items@).to_multiset() == item_ids(rebuilt).to_multiset());
                assert(item_ids(rebuilt) == placement_ids(
                    current@[min_idx as int].placements@,
                ));
                assert(layouts_placed_ids(trial@) == trial_start_ids.add(removed_ms));
                assert(trial_start_ids.add(removed_ms) =~= layouts_placed_ids(current@));
                lemma_ids_len(trial@);
                lemma_ids_len(current@);
                assert(total_placements(trial@) == total_placements(current@));
            }
            proof {
                assert(trial@.len() == n_panels - 1);
            }
            let ghost trial_view = trial@;
            let renumbered = renumber_layouts(trial);
            proof {
                crate::model::lemma_ids_pointwise(renumbered@, trial_view);
                crate::model::lemma_placements_pointwise(renumbered@, trial_view);
                lemma_carry_pointwise(trial_view, renumbered@, expanded_items@);
                assert forall|i: int| 0 <= i < renumbered@.len() implies (
                #[trigger] renumbered@[i]).placements@.len() >= 1 by {
                    assert(renumbered@[i].placements@ == trial_view[i].placements@);
                }
                assert forall|i: int|
                    0 <= i < renumbered@.len() && (#[trigger] renumbered@[i]).placements@.len()
                        >= 1 implies renumbered@[i].placements@[0].x == renumbered@[i].trimming
                        && renumbered@[i].placements@[0].y == renumbered@[i].trimming by {
                    assert(renumbered@[i].placements@ == trial_view[i].placements@);
                    assert(renumbered@[i].trimming == trial_view[i].trimming);
                }
                assert forall|i: int| 0 <= i < renumbered@.len() implies layout_wf(
                    #[trigger] renumbered@[i],
                    self.kerf(),
                ) by {
                    assert(renumbered@[i].placements@ == trial_view[i].placements@);
                    assert(layout_wf(trial_view[i], self.kerf()));
                }
                assert forall|i: int| #![trigger renumbered@[i]] 0 <= i < renumbered@.len()
                    implies exists|j: int|
                    0 <= j < types.len() && layout_of_type(renumbered@[i], #[trigger] types[j]) by {
                    let j = choose|j: int|
                        0 <= j < types.len() && layout_of_type(trial_view[i], #[trigger] types[j]);
                    assert(layout_of_type(renumbered@[i], types[j]));
                }
            }
            current = renumbered;
        }
        current
    }
}

} // verus!

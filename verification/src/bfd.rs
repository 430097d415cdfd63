//! The best-fit-decreasing packer: items arrive in a chosen order; each is
//! placed at the best-scoring feasible position across the open panels, and
//! a new panel is opened when no open panel can take it.

use vstd::prelude::*;
use vstd::multiset::Multiset;

use crate::geom::{layout_wf, placement_ok};
use crate::model::{
    carried_by_some, count_type_prefix, first_placements_at_corner, item_ids, layout_of_type,
    layouts_from_types, layouts_placed_ids, lemma_canonical_push, lemma_canonical_update,
    lemma_carry_push, lemma_carry_update, lemma_layout_ids_push, lemma_layout_ids_single,
    lemma_layouts_ids_push, lemma_layouts_ids_update, lemma_match_push, lemma_match_update,
    lemma_push_placement_wf, matched_by_some, numbering_canonical, placement_carries_item,
    placements_carry_items, placements_match_items, placement_matches_item,
};
use crate::optimizer::Optimizer;
use crate::packer::{item_fits_some_type, item_fits_type};
use crate::types::{item_ok, Item, OptimizerError, PanelLayout, PanelType, MAX_TOTAL_ITEMS};

verus! {

/// An item placed inside some layout's usable area, in its own or rotated
/// orientation, would also fit an empty panel of that layout's type.
pub proof fn lemma_placed_implies_fits(
    p: crate::types::Placement,
    it: Item,
    l: PanelLayout,
    types: Seq<PanelType>,
)
    requires
        placement_matches_item(p, it),
        placement_ok(p, l),
        exists|j: int| 0 <= j < types.len() && layout_of_type(l, #[trigger] types[j]),
    ensures
        item_fits_some_type(it, types),
{
    let j = choose|j: int| 0 <= j < types.len() && layout_of_type(l, #[trigger] types[j]);
    assert(item_fits_type(it, types[j]));
}

impl Optimizer {
    /// Packs the items, in the given order, by best-fit decreasing with a
    /// bottom-left-fill scorer. Under `min_initial_usage` a large per-panel
    /// penalty makes earlier panels fill before later ones are considered.
    ///
    /// Succeeds exactly when every item fits some panel type; the resulting
    /// layouts are well formed, carry exactly the given items, and number
    /// each type's panels 1, 2, ... in order of opening.
    pub(crate) fn best_fit_decreasing_optimize(&self, items: &Vec<Item>) -> (r: Result<
        Vec<PanelLayout>,
        OptimizerError,
    >)
        requires
            self.wf(),
            items@.len() <= MAX_TOTAL_ITEMS,
            forall|i: int| 0 <= i < items@.len() ==> item_ok(#[trigger] items@[i]),
        ensures
            match r {
                Ok(ls) => {
                    &&& forall|i: int|
                        0 <= i < ls@.len() ==> layout_wf(#[trigger] ls@[i], self.kerf())
                    &&& layouts_placed_ids(ls@) == item_ids(items@).to_multiset()
                    &&& placements_carry_items(ls@, items@)
                    &&& placements_match_items(ls@, items@)
                    &&& first_placements_at_corner(ls@)
                    &&& forall|i: int| 0 <= i < ls@.len() ==> (#[trigger] ls@[i]).placements@.len() >= 1
                    &&& numbering_canonical(ls@)
                    &&& layouts_from_types(ls@, self.request.panel_types@)
                    &&& ls@.len() <= items@.len()
                    &&& forall|i: int|
                        0 <= i < items@.len() ==> item_fits_some_type(
                            #[trigger] items@[i],
                            self.request.panel_types@,
                        )
                },
                Err(e) => {
                    &&& e matches OptimizerError::CannotFitAll
                    &&& exists|i: int|
                        0 <= i < items@.len() && !item_fits_some_type(
                            #[trigger] items@[i],
                            self.request.panel_types@,
                        )
                },
            },
    {
        let mut layouts: Vec<PanelLayout> = Vec::new();
        proof {
            broadcast use vstd::seq_lib::group_to_multiset_ensures;

            assert(items@.take(0) =~= Seq::<Item>::empty());
            assert(item_ids(Seq::<Item>::empty()) =~= Seq::<Seq<char>>::empty());
            assert(item_ids(items@.take(0)).to_multiset() =~= Multiset::<Seq<char>>::empty());
        }
        let n_items = items.len();
        let mut it_idx: usize = 0;
        while it_idx < n_items
            invariant
                self.wf(),
                n_items == items@.len(),
                n_items <= MAX_TOTAL_ITEMS,
                0 <= it_idx <= n_items,
                forall|i: int| 0 <= i < items@.len() ==> item_ok(#[trigger] items@[i]),
                forall|i: int|
                    0 <= i < layouts@.len() ==> layout_wf(#[trigger] layouts@[i], self.kerf()),
                layouts_placed_ids(layouts@) == item_ids(items@.take(it_idx as int)).to_multiset(),
                placements_carry_items(layouts@, items@),
                placements_match_items(layouts@, items@),
                first_placements_at_corner(layouts@),
                forall|i: int|
                    0 <= i < layouts@.len() ==> (#[trigger] layouts@[i]).placements@.len() >= 1,
                numbering_canonical(layouts@),
                layouts_from_types(layouts@, self.request.panel_types@),
                layouts@.len() <= it_idx,
                forall|i: int|
                    0 <= i < it_idx ==> item_fits_some_type(
                        #[trigger] items@[i],
                        self.request.panel_types@,
                    ),
            decreases n_items - it_idx,
        {
            let item = &items[it_idx];
            let mut best_fit: Option<(usize, crate::types::Placement)> = None;
            let mut best_score: i128 = 0;

            let n_layouts = layouts.len();
            let mut l_idx: usize = 0;
            while l_idx < n_layouts
                invariant
                    self.wf(),
                    item_ok(*item),
                    *item == items@[it_idx as int],
                    0 <= it_idx < items@.len(),
                    n_layouts == layouts@.len(),
                    0 <= l_idx <= n_layouts,
                    forall|i: int|
                        0 <= i < layouts@.len() ==> layout_wf(#[trigger] layouts@[i], self.kerf()),
                    layouts_from_types(layouts@, self.request.panel_types@),
                    best_fit matches Some((idx, p)) ==> {
                        &&& 0 <= (idx as int) < layouts@.len()
                        &&& placement_matches_item(p, *item)
                        &&& crate::model::placement_fits_layout(
                            p,
                            layouts@[idx as int],
                            self.kerf(),
                        )
                    },
                decreases n_layouts - l_idx,
            {
                let (found, _) = self.find_best_placement(item, &layouts[l_idx]);
                if let Some((placement, score)) = found {
                    proof {
                        assert((l_idx as int) * 10_000_000 <= 0xffffffffffffffff * 10_000_000)
                            by (nonlinear_arith)
                            requires
                                0 <= l_idx <= 0xffffffffffffffff,
                        ;
                    }
                    let adjusted = if self.request.min_initial_usage {
                        score + (l_idx as i128) * 10_000_000
                    } else {
                        score
                    };
                    let replace = match &best_fit {
                        None => true,
                        Some(_) => adjusted < best_score,
                    };
                    if replace {
                        best_fit = Some((l_idx, placement));
                        best_score = adjusted;
                    }
                }
                l_idx += 1;
            }

            if let Some((idx, placement)) = best_fit {
                let ghost old_layouts = layouts@;
                let mut layout = layouts.remove(idx);
                let ghost old_layout = layout;
                layout.placements.push(placement);
                proof {
                    lemma_push_placement_wf(old_layout, layout, placement, self.kerf());
                    lemma_layout_ids_push(old_layout, layout, placement);
                }
                layouts.insert(idx, layout);
                proof {
                    assert(layouts@ =~= old_layouts.update(idx as int, layout));
                    lemma_layouts_ids_update(old_layouts, idx as int, layout, placement.item_id@);
                    lemma_canonical_update(old_layouts, idx as int, layout);
                    assert(placement_carries_item(placement, items@[it_idx as int]));
                    assert(carried_by_some(placement, items@));
                    lemma_carry_update(old_layouts, idx as int, layout, placement, items@);
                    assert(matched_by_some(placement, items@));
                    lemma_match_update(old_layouts, idx as int, layout, placement, items@);
                    assert forall|i: int| 0 <= i < layouts@.len() implies (
                    #[trigger] layouts@[i]).placements@.len() >= 1 by {
                        if i != idx {
                            assert(layouts@[i] == old_layouts[i]);
                        }
                    }
                    assert forall|i: int|
                        0 <= i < layouts@.len() && (#[trigger] layouts@[i]).placements@.len() >= 1
                        implies layouts@[i].placements@[0].x == layouts@[i].trimming
                            && layouts@[i].placements@[0].y == layouts@[i].trimming by {
                        if i != idx {
                            assert(layouts@[i] == old_layouts[i]);
                        } else {
                            assert(layouts@[i].placements@[0] == old_layouts[i].placements@[0]);
                        }
                    }
                    assert(item_ids(items@.take(it_idx + 1)) =~= item_ids(
                        items@.take(it_idx as int),
                    ).push(items@[it_idx as int].id@));
                    broadcast use vstd::seq_lib::group_to_multiset_ensures;

                    assert forall|i: int| 0 <= i < layouts@.len() implies layout_wf(
                        #[trigger] layouts@[i],
                        self.kerf(),
                    ) by {
                        if i != idx {
                            assert(layouts@[i] == old_layouts[i]);
                        }
                    }
                    assert forall|i: int| #![trigger layouts@[i]] 0 <= i < layouts@.len()
                        implies exists|j: int|
                        0 <= j < self.request.panel_types@.len() && layout_of_type(
                            layouts@[i],
                            #[trigger] self.request.panel_types@[j],
                        ) by {
                        if i == idx {
                            let j = choose|j: int|
                                0 <= j < self.request.panel_types@.len() && layout_of_type(
                                    old_layouts[i],
                                    #[trigger] self.request.panel_types@[j],
                                );
                            assert(layout_of_type(layouts@[i], self.request.panel_types@[j]));
                        } else {
                            assert(layouts@[i] == old_layouts[i]);
                        }
                    }
                    lemma_placed_implies_fits(
                        placement,
                        *item,
                        old_layouts[idx as int],
                        self.request.panel_types@,
                    );
                }
            } else {
                match self.place_on_new_panel(item) {
                    Ok(mut new_layout) => {
                        // Number the panel after the ones of its type that
                        // are already open.
                        let mut count: u32 = 0;
                        let mut j: usize = 0;
                        while j < n_layouts
                            invariant
                                n_layouts == layouts@.len(),
                                layouts@.len() <= MAX_TOTAL_ITEMS,
                                0 <= j <= n_layouts,
                                count as int == count_type_prefix(
                                    layouts@,
                                    j as int,
                                    new_layout.panel_type_id@,
                                ),
                                count <= j,
                            decreases n_layouts - j,
                        {
                            if layouts[j].panel_type_id == new_layout.panel_type_id {
                                count += 1;
                            }
                            j += 1;
                        }
                        new_layout.panel_number = count + 1;
                        let ghost old_layouts = layouts@;
                        layouts.push(new_layout);
                        proof {
                            lemma_layouts_ids_push(old_layouts, new_layout);
                            lemma_canonical_push(old_layouts, new_layout);
                            assert(placement_carries_item(
                                new_layout.placements@[0],
                                items@[it_idx as int],
                            ));
                            assert forall|pi: int|
                                0 <= pi < new_layout.placements@.len() implies carried_by_some(
                                #[trigger] new_layout.placements@[pi],
                                items@,
                            ) by {
                                assert(placement_carries_item(
                                    new_layout.placements@[pi],
                                    items@[it_idx as int],
                                ));
                            }
                            lemma_carry_push(old_layouts, new_layout, items@);
                            assert forall|pi: int|
                                0 <= pi < new_layout.placements@.len() implies matched_by_some(
                                #[trigger] new_layout.placements@[pi],
                                items@,
                            ) by {
                                assert(placement_matches_item(
                                    new_layout.placements@[pi],
                                    items@[it_idx as int],
                                ));
                            }
                            lemma_match_push(old_layouts, new_layout, items@);
                            assert forall|i: int| 0 <= i < layouts@.len() implies (
                            #[trigger] layouts@[i]).placements@.len() >= 1 by {
                                if i < old_layouts.len() {
                                    assert(layouts@[i] == old_layouts[i]);
                                } else {
                                    assert(layouts@[i] == new_layout);
                                }
                            }
                            assert forall|i: int|
                                0 <= i < layouts@.len() && (
                                #[trigger] layouts@[i]).placements@.len() >= 1
                                implies layouts@[i].placements@[0].x == layouts@[i].trimming
                                    && layouts@[i].placements@[0].y == layouts@[i].trimming by {
                                if i < old_layouts.len() {
                                    assert(layouts@[i] == old_layouts[i]);
                                } else {
                                    assert(layouts@[i] == new_layout);
                                }
                            }
                            lemma_layout_ids_single(new_layout, new_layout.placements@[0]);
                            assert(layouts_placed_ids(old_layouts).add(
                                Multiset::empty().insert(new_layout.placements@[0].item_id@),
                            ) =~= layouts_placed_ids(old_layouts).insert(
                                new_layout.placements@[0].item_id@,
                            ));
                            assert(item_ids(items@.take(it_idx + 1)) =~= item_ids(
                                items@.take(it_idx as int),
                            ).push(items@[it_idx as int].id@));
                            broadcast use vstd::seq_lib::group_to_multiset_ensures;

                        }
                    },
                    Err(e) => {
                        return Err(e);
                    },
                }
            }
            it_idx += 1;
        }
        proof {
            assert(items@.take(n_items as int) =~= items@);
        }
        Ok(layouts)
    }
}

} // verus!

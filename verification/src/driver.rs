//! The strategy driver and the optimizer's entry point: the packer runs
//! under several item orderings, the best plan (fewest panels, then least
//! waste) is kept, optional items are backfilled, and the output leftovers
//! and statistics are computed.

use vstd::prelude::*;

use crate::cloning::clone_items;
use crate::geom::layout_wf;
use crate::items::{
    expanded_ids, has_copy, has_source, item_dims_eq, item_same_or_swapped, normalize_items,
    sort_items, SortOrder,
};
use crate::model::{
    carried_by_some, count_type_prefix, dims_orbit, first_placements_at_corner, item_ids,
    layout_of_type, layouts_from_types, layouts_placed_ids, lemma_canonical_pointwise,
    lemma_carried_permutation, lemma_carried_swapped, lemma_ids_len, lemma_ids_pointwise,
    lemma_placements_pointwise, numbering_canonical, placement_carries_item,
    placement_from_declared_optional, placement_from_request_item, placements_carry_items,
    string_views,
};
use crate::optimizer::Optimizer;
use crate::packer::{item_fits_some_type, item_fits_type};
use crate::summary::{
    spec_percentage, sum_counts, sum_panel_area, sum_used_area, total_placements,
};
use crate::types::{
    item_ok, Item, OptimizationRequest, OptimizationResult, OptimizerError, PanelLayout,
    MAX_TOTAL_ITEMS,
};

verus! {

/// Every item that asks for at least one copy fits some panel type.
pub open spec fn request_satisfiable(r: OptimizationRequest) -> bool {
    forall|i: int|
        0 <= i < r.items@.len() ==> ((#[trigger] r.items@[i]).quantity >= 1
            ==> item_fits_some_type(r.items@[i], r.panel_types@))
}

/// The reported leftovers of a layout are sound: inside the usable area,
/// clear of every placement's reserved space, and at least 10 units on
/// either side.
pub open spec fn unused_areas_wf(l: PanelLayout, kerf: int) -> bool {
    forall|k: int|
        0 <= k < l.unused_areas@.len() ==> {
            &&& (#[trigger] l.unused_areas@[k]).width >= 10
            &&& l.unused_areas@[k].height >= 10
            &&& crate::geom::rect_inside(
                crate::geom::area_rect(l.unused_areas@[k]),
                crate::geom::usable_rect(l),
            )
            &&& forall|i: int|
                0 <= i < l.placements@.len() ==> !crate::geom::rects_overlap(
                    crate::geom::area_rect(l.unused_areas@[k]),
                    crate::geom::expanded_rect(
                        crate::geom::placement_rect(#[trigger] l.placements@[i]),
                        kerf,
                    ),
                )
        }
}

/// Whether some item in the list fits no panel type.
pub open spec fn some_item_unfit(
    s: Seq<Item>,
    types: Seq<crate::types::PanelType>,
) -> bool {
    exists|k: int| 0 <= k < s.len() && !item_fits_some_type(#[trigger] s[k], types)
}

/// An unfittable item survives any permutation.
proof fn lemma_unfit_permutation(
    s1: Seq<Item>,
    s2: Seq<Item>,
    types: Seq<crate::types::PanelType>,
)
    requires
        s1.to_multiset() == s2.to_multiset(),
        some_item_unfit(s1, types),
    ensures
        some_item_unfit(s2, types),
{
    let k = choose|k: int| 0 <= k < s1.len() && !item_fits_some_type(#[trigger] s1[k], types);
    let w = s1[k];
    assert(s1.contains(w));
    vstd::seq_lib::to_multiset_contains(s1, w);
    vstd::seq_lib::to_multiset_contains(s2, w);
    assert(s2.contains(w));
    let j = choose|j: int| 0 <= j < s2.len() && s2[j] == w;
    assert(!item_fits_some_type(s2[j], types));
}

/// Swapping the dimensions of rotatable items changes no item's fit.
proof fn lemma_unfit_normalization(
    s1: Seq<Item>,
    s2: Seq<Item>,
    types: Seq<crate::types::PanelType>,
)
    requires
        s1.len() == s2.len(),
        forall|i: int| 0 <= i < s1.len() ==> item_same_or_swapped(#[trigger] s1[i], #[trigger] s2[i]),
    ensures
        some_item_unfit(s1, types) <==> some_item_unfit(s2, types),
{
    assert forall|i: int| 0 <= i < s1.len() implies item_fits_some_type(#[trigger] s1[i], types)
        == item_fits_some_type(#[trigger] s2[i], types) by {
        if item_fits_some_type(s1[i], types) {
            let j = choose|j: int|
                0 <= j < types.len() && item_fits_type(s1[i], #[trigger] types[j]);
            assert(item_fits_type(s2[i], types[j]));
        }
        if item_fits_some_type(s2[i], types) {
            let j = choose|j: int|
                0 <= j < types.len() && item_fits_type(s2[i], #[trigger] types[j]);
            assert(item_fits_type(s1[i], types[j]));
        }
    }
    if some_item_unfit(s1, types) {
        let k = choose|k: int| 0 <= k < s1.len() && !item_fits_some_type(#[trigger] s1[k], types);
        assert(!item_fits_some_type(s2[k], types));
    }
    if some_item_unfit(s2, types) {
        let k = choose|k: int| 0 <= k < s2.len() && !item_fits_some_type(#[trigger] s2[k], types);
        assert(!item_fits_some_type(s1[k], types));
    }
}

impl Optimizer {
    /// A fresh copy of the expanded items, reordered for one packing
    /// strategy: three pure sort orders, and three that first normalize the
    /// orientation of rotatable items.
    fn prepare_strategy(&self, expanded: &Vec<Item>, strategy: u32) -> (r: Vec<Item>)
        requires
            self.wf(),
            forall|k: int| 0 <= k < expanded@.len() ==> item_ok(#[trigger] expanded@[k]),
        ensures
            r@.len() == expanded@.len(),
            forall|k: int| 0 <= k < r@.len() ==> item_ok(#[trigger] r@[k]),
            item_ids(r@).to_multiset() == item_ids(expanded@).to_multiset(),
            some_item_unfit(r@, self.request.panel_types@) == some_item_unfit(
                expanded@,
                self.request.panel_types@,
            ),
            forall|p: crate::types::Placement|
                #![trigger carried_by_some(p, r@)]
                carried_by_some(p, r@) ==> carried_by_some(p, expanded@),
    {
        let mut prepared = clone_items(expanded);
        let ghost base = expanded@;
        if strategy >= 3 {
            let to_height = strategy == 3 || strategy == 5;
            normalize_items(&mut prepared, to_height);
            proof {
                lemma_unfit_normalization(base, prepared@, self.request.panel_types@);
                assert(item_ids(prepared@) =~= item_ids(base));
            }
        }
        let ghost normalized = prepared@;
        let order = if strategy == 0 || strategy == 5 {
            SortOrder::AreaDesc
        } else if strategy == 1 || strategy == 3 {
            SortOrder::HeightWidthDesc
        } else {
            SortOrder::WidthHeightDesc
        };
        sort_items(&mut prepared, order);
        proof {
            crate::items::lemma_map_values_multiset(
                prepared@,
                normalized,
                |it: Item| it.id@,
            );
            assert(item_ids(prepared@).to_multiset() == item_ids(normalized).to_multiset());
            if some_item_unfit(prepared@, self.request.panel_types@) {
                lemma_unfit_permutation(prepared@, normalized, self.request.panel_types@);
            }
            if some_item_unfit(normalized, self.request.panel_types@) {
                lemma_unfit_permutation(normalized, prepared@, self.request.panel_types@);
            }
            assert forall|k: int| 0 <= k < prepared@.len() implies item_ok(
                #[trigger] prepared@[k],
            ) by {
                assert(normalized.contains(prepared@[k]));
                let k0 = choose|k0: int|
                    0 <= k0 < normalized.len() && normalized[k0] == prepared@[k];
            }
            assert forall|p: crate::types::Placement|
                carried_by_some(p, prepared@) implies carried_by_some(p, base) by {
                lemma_carried_permutation(p, prepared@, normalized);
                if strategy >= 3 {
                    lemma_carried_swapped(p, normalized, base);
                } else {
                    assert(normalized == base);
                }
            }
        }
        prepared
    }

    /// Executes the full optimization flow and returns the packed layouts,
    /// panel counts and statistics.
    ///
    /// Succeeds exactly when every requested item fits some panel type. On
    /// success, every layout is well formed (placements inside the usable
    /// area, none overlapping another's kerf-reserved space), the placed
    /// identifiers are exactly the expanded items plus the reported optional
    /// items, panel numbers per type are canonical, and the statistics agree
    /// with the layouts.
    #[verifier::rlimit(100)]
    pub fn optimize(&self) -> (r: Result<OptimizationResult, OptimizerError>)
        requires
            self.wf(),
        ensures
            match r {
                Ok(res) => {
                    &&& request_satisfiable(self.request)
                    &&& forall|i: int|
                        0 <= i < res.layouts@.len() ==> layout_wf(
                            #[trigger] res.layouts@[i],
                            self.kerf(),
                        )
                    &&& forall|i: int|
                        0 <= i < res.layouts@.len() ==> unused_areas_wf(
                            #[trigger] res.layouts@[i],
                            self.kerf(),
                        )
                    &&& forall|i: int|
                        0 <= i < res.layouts@.len() ==> (
                        #[trigger] res.layouts@[i]).placements@.len() >= 1
                    &&& first_placements_at_corner(res.layouts@)
                    &&& forall|l: int, pi: int|
                        0 <= l < res.layouts@.len() && 0 <= pi
                            < res.layouts@[l].placements@.len()
                            ==> placement_from_request_item(
                            #[trigger] res.layouts@[l].placements@[pi],
                            self.request.items@,
                        ) || placement_from_declared_optional(
                            res.layouts@[l].placements@[pi],
                            self.request.panel_types@,
                        )
                    &&& layouts_placed_ids(res.layouts@) == expanded_ids(
                        self.request.items@,
                    ).to_multiset().add(string_views(res.optional_items_used@).to_multiset())
                    &&& numbering_canonical(res.layouts@)
                    &&& layouts_from_types(res.layouts@, self.request.panel_types@)
                    &&& res.summary.total_panels as int == res.layouts@.len()
                    &&& sum_counts(res.panels_required@) == res.layouts@.len()
                    &&& forall|e: int|
                        0 <= e < res.panels_required@.len() ==> (
                        #[trigger] res.panels_required@[e]).count as int == count_type_prefix(
                            res.layouts@,
                            res.layouts@.len() as int,
                            res.panels_required@[e].panel_type_id@,
                        ) && res.panels_required@[e].count >= 1
                    &&& forall|i: int, j: int|
                        0 <= i < j < res.panels_required@.len() ==> (
                        #[trigger] res.panels_required@[i]).panel_type_id@ != (
                        #[trigger] res.panels_required@[j]).panel_type_id@
                    &&& res.summary.total_area == sum_panel_area(res.layouts@)
                    &&& res.summary.used_area == sum_used_area(res.layouts@)
                    &&& res.summary.waste_area == res.summary.total_area - res.summary.used_area
                    &&& res.summary.waste_percentage == spec_percentage(
                        res.summary.waste_area as int,
                        res.summary.total_area as int,
                    )
                    &&& (res.summary.reusable_remnant_area is Some
                        <==> self.request.min_reusable_remnant_size is Some)
                    &&& (res.summary.actual_waste_area is Some
                        <==> self.request.min_reusable_remnant_size is Some)
                    &&& (res.summary.actual_waste_percentage is Some
                        <==> self.request.min_reusable_remnant_size is Some)
                    &&& match res.summary.reusable_remnant_area {
                        Some(v) => {
                            &&& v <= res.summary.waste_area
                            &&& (res.summary.waste_area >= 0 ==> v >= 0)
                            &&& res.summary.actual_waste_area matches Some(a) && a
                                == res.summary.waste_area - v && a >= 0
                        },
                        None => true,
                    }
                    &&& match self.request.min_reusable_remnant_size {
                        Some(ms) => (exists|i: int|
                            0 <= i < res.layouts@.len() && crate::summary::has_reusable_box(
                                #[trigger] res.layouts@[i],
                                ms as int,
                                self.kerf(),
                            )) ==> (res.summary.reusable_remnant_area matches Some(v) && (v >= ms
                            || v == res.summary.waste_area)),
                        None => true,
                    }
                },
                Err(e) => e matches OptimizerError::CannotFitAll && !request_satisfiable(
                    self.request,
                ),
            },
    {
        let expanded = self.expand_items();
        proof {
            assert(expanded@.len() <= MAX_TOTAL_ITEMS);
        }

        let mut best: Option<Vec<PanelLayout>> = None;
        let mut best_panels: usize = 0;
        let mut best_waste: i64 = 0;
        let ghost types = self.request.panel_types@;

        let mut strategy: u32 = 0;
        while strategy < 6
            invariant
                self.wf(),
                types == self.request.panel_types@,
                0 <= strategy <= 6,
                expanded@.len() <= MAX_TOTAL_ITEMS,
                forall|k: int|
                    0 <= k < expanded@.len() ==> item_ok(#[trigger] expanded@[k]),
                item_ids(expanded@) == expanded_ids(self.request.items@),
                crate::items::expansion_covers(expanded@, self.request.items@),
                best matches Some(ls) ==> {
                    &&& forall|i: int|
                        0 <= i < ls@.len() ==> layout_wf(#[trigger] ls@[i], self.kerf())
                    &&& layouts_placed_ids(ls@) == item_ids(expanded@).to_multiset()
                    &&& placements_carry_items(ls@, expanded@)
                    &&& first_placements_at_corner(ls@)
                    &&& forall|i: int|
                        0 <= i < ls@.len() ==> (#[trigger] ls@[i]).placements@.len() >= 1
                    &&& numbering_canonical(ls@)
                    &&& layouts_from_types(ls@, types)
                    &&& ls@.len() <= MAX_TOTAL_ITEMS
                    &&& total_placements(ls@) <= MAX_TOTAL_ITEMS
                },
                best is Some ==> !some_item_unfit(expanded@, types),
                best is None && strategy > 0 ==> some_item_unfit(expanded@, types),
            decreases 6 - strategy,
        {
            let prepared = self.prepare_strategy(&expanded, strategy);
            match self.best_fit_decreasing_optimize(&prepared) {
                Ok(packed) => {
                    proof {
                        assert(!some_item_unfit(prepared@, types));
                        if some_item_unfit(expanded@, types) {
                            assert(some_item_unfit(prepared@, types));
                        }
                        assert(layouts_placed_ids(packed@) == item_ids(expanded@).to_multiset());
                        lemma_ids_len(packed@);
                        vstd::seq_lib::to_multiset_len(item_ids(expanded@));
                        assert(total_placements(packed@) <= MAX_TOTAL_ITEMS);
                    }
                    // Try to evacuate lightly used panels.
                    let layouts = self.reduce_panels(packed, &prepared);
                    proof {
                        lemma_ids_len(layouts@);
                        assert forall|l: int, pi: int|
                            0 <= l < layouts@.len() && 0 <= pi
                                < layouts@[l].placements@.len() implies carried_by_some(
                            #[trigger] layouts@[l].placements@[pi],
                            expanded@,
                        ) by {
                            assert(carried_by_some(layouts@[l].placements@[pi], prepared@));
                        }
                    }
                    let summary = self.calculate_summary(&layouts);
                    let panels = layouts.len();
                    let waste = summary.waste_area;
                    let replace = match &best {
                        None => true,
                        Some(_) => panels < best_panels || (panels == best_panels && waste
                            < best_waste),
                    };
                    if replace {
                        best = Some(layouts);
                        best_panels = panels;
                        best_waste = waste;
                    }
                },
                Err(_) => {
                    proof {
                        assert(some_item_unfit(prepared@, types));
                        assert(some_item_unfit(expanded@, types));
                    }
                },
            }
            strategy += 1;
        }

        match best {
            None => {
                proof {
                    assert(some_item_unfit(expanded@, types));
                    let k = choose|k: int|
                        0 <= k < expanded@.len() && !item_fits_some_type(
                            #[trigger] expanded@[k],
                            types,
                        );
                    assert(has_source(expanded@[k], self.request.items@));
                    let q = choose|q: int|
                        0 <= q < self.request.items@.len() && item_dims_eq(
                            expanded@[k],
                            #[trigger] self.request.items@[q],
                        ) && self.request.items@[q].quantity >= 1;
                    assert forall|j: int|
                        0 <= j < types.len() implies !item_fits_type(
                        self.request.items@[q],
                        #[trigger] types[j],
                    ) by {
                        assert(!item_fits_type(expanded@[k], types[j]));
                    }
                    assert(!item_fits_some_type(self.request.items@[q], types));
                    assert(!request_satisfiable(self.request));
                }
                Err(OptimizerError::CannotFitAll)
            },
            Some(packed) => {
                proof {
                    assert forall|q: int|
                        0 <= q < self.request.items@.len() && (
                        #[trigger] self.request.items@[q]).quantity >= 1 implies item_fits_some_type(
                        self.request.items@[q],
                        types,
                    ) by {
                        assert(has_copy(self.request.items@[q], expanded@));
                        let k = choose|k: int|
                            0 <= k < expanded@.len() && item_dims_eq(
                                #[trigger] expanded@[k],
                                self.request.items@[q],
                            );
                        assert(item_fits_some_type(expanded@[k], types));
                        let j = choose|j: int|
                            0 <= j < types.len() && item_fits_type(
                                expanded@[k],
                                #[trigger] types[j],
                            );
                        assert(item_fits_type(self.request.items@[q], types[j]));
                    }
                    assert(request_satisfiable(self.request));
                }
                let ghost packed_view = packed@;

                // Backfill optional items where they reduce waste.
                let (mut final_layouts, optional_items_used) = self.try_add_optional_items(packed);
                proof {
                    lemma_canonical_pointwise(packed_view, final_layouts@);
                    assert forall|i: int|
                        0 <= i < final_layouts@.len() && (
                        #[trigger] final_layouts@[i]).placements@.len() >= 1
                        implies final_layouts@[i].placements@[0].x == final_layouts@[i].trimming
                            && final_layouts@[i].placements@[0].y
                            == final_layouts@[i].trimming by {
                        assert(packed_view[i].placements@.len() >= 1);
                        assert(final_layouts@[i].placements@[0] == packed_view[i].placements@[0]);
                        assert(final_layouts@[i].trimming == packed_view[i].trimming);
                    }
                    assert forall|l: int, pi: int|
                        0 <= l < final_layouts@.len() && 0 <= pi
                            < final_layouts@[l].placements@.len()
                        implies placement_from_request_item(
                        #[trigger] final_layouts@[l].placements@[pi],
                        self.request.items@,
                    ) || placement_from_declared_optional(
                        final_layouts@[l].placements@[pi],
                        self.request.panel_types@,
                    ) by {
                        let p = final_layouts@[l].placements@[pi];
                        if pi < packed_view[l].placements@.len() {
                            assert(p == packed_view[l].placements@[pi]);
                            assert(carried_by_some(p, expanded@));
                            let e = choose|e: int|
                                0 <= e < expanded@.len() && placement_carries_item(
                                    p,
                                    #[trigger] expanded@[e],
                                );
                            assert(has_source(expanded@[e], self.request.items@));
                            let src = choose|q: int|
                                0 <= q < self.request.items@.len() && item_dims_eq(
                                    expanded@[e],
                                    #[trigger] self.request.items@[q],
                                ) && self.request.items@[q].quantity >= 1;
                            assert(dims_orbit(
                                p.width as int,
                                p.height as int,
                                self.request.items@[src].width as int,
                                self.request.items@[src].height as int,
                            ));
                            assert(placement_from_request_item(p, self.request.items@));
                        }
                    }
                    assert forall|i: int| #![trigger final_layouts@[i]]
                        0 <= i < final_layouts@.len() implies exists|j: int|
                        0 <= j < types.len() && layout_of_type(
                            final_layouts@[i],
                            #[trigger] types[j],
                        ) by {
                        let j = choose|j: int|
                            0 <= j < types.len() && layout_of_type(
                                packed_view[i],
                                #[trigger] types[j],
                            );
                        assert(layout_of_type(final_layouts@[i], types[j]));
                    }
                }

                // Populate the reported leftovers of every panel.
                let n = final_layouts.len();
                let ghost pre_unused = final_layouts@;
                let mut i: usize = 0;
                while i < n
                    invariant
                        self.wf(),
                        n == final_layouts@.len(),
                        0 <= i <= n,
                        final_layouts@.len() == pre_unused.len(),
                        forall|k: int|
                            0 <= k < final_layouts@.len() ==> {
                                &&& (#[trigger] final_layouts@[k]).panel_type_id
                                    == pre_unused[k].panel_type_id
                                &&& final_layouts@[k].panel_number == pre_unused[k].panel_number
                                &&& final_layouts@[k].width == pre_unused[k].width
                                &&& final_layouts@[k].height == pre_unused[k].height
                                &&& final_layouts@[k].trimming == pre_unused[k].trimming
                                &&& final_layouts@[k].placements@ == pre_unused[k].placements@
                                &&& layout_wf(final_layouts@[k], self.kerf())
                            },
                        forall|k: int|
                            0 <= k < i ==> unused_areas_wf(
                                #[trigger] final_layouts@[k],
                                self.kerf(),
                            ),
                    decreases n - i,
                {
                    let areas = self.compute_output_unused_areas(&final_layouts[i]);
                    let ghost before = final_layouts@;
                    let mut layout = final_layouts.remove(i);
                    layout.unused_areas = areas;
                    final_layouts.insert(i, layout);
                    proof {
                        assert(final_layouts@ =~= before.update(i as int, layout));
                        assert forall|k: int| 0 <= k < i + 1 implies unused_areas_wf(
                            #[trigger] final_layouts@[k],
                            self.kerf(),
                        ) by {
                            if k < i {
                                assert(final_layouts@[k] == before[k]);
                            }
                        }
                    }
                    i += 1;
                }
                proof {
                    lemma_ids_pointwise(final_layouts@, pre_unused);
                    lemma_placements_pointwise(final_layouts@, pre_unused);
                    lemma_canonical_pointwise(pre_unused, final_layouts@);
                    assert forall|k: int| #![trigger final_layouts@[k]]
                        0 <= k < final_layouts@.len() implies exists|j: int|
                        0 <= j < types.len() && layout_of_type(
                            final_layouts@[k],
                            #[trigger] types[j],
                        ) by {
                        let j = choose|j: int|
                            0 <= j < types.len() && layout_of_type(
                                pre_unused[k],
                                #[trigger] types[j],
                            );
                        assert(layout_of_type(final_layouts@[k], types[j]));
                    }
                    assert forall|k: int| 0 <= k < final_layouts@.len() implies (
                    #[trigger] final_layouts@[k]).placements@.len() >= 1 by {
                        assert(final_layouts@[k].placements@ == pre_unused[k].placements@);
                        assert(pre_unused[k].placements@.len()
                            >= packed_view[k].placements@.len());
                    }
                    assert forall|k: int|
                        0 <= k < final_layouts@.len() && (
                        #[trigger] final_layouts@[k]).placements@.len() >= 1
                        implies final_layouts@[k].placements@[0].x == final_layouts@[k].trimming
                            && final_layouts@[k].placements@[0].y
                            == final_layouts@[k].trimming by {
                        assert(final_layouts@[k].placements@ == pre_unused[k].placements@);
                        assert(final_layouts@[k].trimming == pre_unused[k].trimming);
                    }
                    assert forall|l: int, pi: int|
                        0 <= l < final_layouts@.len() && 0 <= pi
                            < final_layouts@[l].placements@.len()
                        implies placement_from_request_item(
                        #[trigger] final_layouts@[l].placements@[pi],
                        self.request.items@,
                    ) || placement_from_declared_optional(
                        final_layouts@[l].placements@[pi],
                        self.request.panel_types@,
                    ) by {
                        assert(final_layouts@[l].placements@ == pre_unused[l].placements@);
                        assert(final_layouts@[l].placements@[pi] == pre_unused[l].placements@[pi]);
                    }
                }

                let panels_required = self.count_panels(&final_layouts);
                let summary = self.calculate_summary(&final_layouts);

                proof {
                    assert(layouts_placed_ids(final_layouts@) == expanded_ids(
                        self.request.items@,
                    ).to_multiset().add(string_views(optional_items_used@).to_multiset()));
                }

                Ok(
                    OptimizationResult {
                        panels_required,
                        layouts: final_layouts,
                        summary,
                        optional_items_used,
                    },
                )
            },
        }
    }
}

} // verus!

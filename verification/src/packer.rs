//! Candidate placement search: the best position for an item on an open
//! panel, and the choice of a new panel when no open panel can take it.

use vstd::prelude::*;

use crate::geom::{
    area_bounded, area_rect, expanded_rect, layout_bounded, layout_wf, lemma_inside_avoids,
    placement_rect, rect_inside, rects_overlap, usable_rect,
};
use crate::score::{spec_placement_score, spec_placement_score_at};
use crate::model::{
    layout_of_type, placement_clear_of_all, placement_fits_layout, placement_matches_item,
};
use crate::optimizer::Optimizer;
use crate::types::{item_ok, Item, OptimizerError, PanelLayout, Placement, UnusedArea, MAX_DIM};

verus! {

/// Bound on every score the scorer can produce, used to keep later
/// arithmetic on scores trivially in range.
pub open spec fn score_in_range(s: i128) -> bool {
    -10_000_000_000_000_000_000_000_000_000_000 <= s <= 10_000_000_000_000_000_000_000_000_000_000
}

/// A scored feasible placement of one item on one layout.
pub struct CandidatePlacement {
    pub placement: Placement,
    pub score: i128,
    pub area_width: i64,
    pub area_height: i64,
}

/// The score of placing a `w` by `h` piece at the bottom-left corner of
/// the free rectangle `a` on this layout.
pub open spec fn corner_score(
    opt: Optimizer,
    a: UnusedArea,
    w: int,
    h: int,
    l: PanelLayout,
) -> int {
    spec_placement_score(
        a.x as int,
        a.y as int,
        w,
        h,
        a,
        l,
        opt.kerf(),
        opt.request.min_initial_usage,
        opt.request.optimize_for_reusable_remnants,
    )
}

/// Whether a free rectangle admits the item, in its own orientation or
/// rotated where permitted.
pub open spec fn area_admits(a: UnusedArea, it: Item) -> bool {
    (it.width <= a.width && it.height <= a.height) || (it.can_rotate && it.height <= a.width
        && it.width <= a.height)
}

/// Whether a usable area of the given dimensions can host the item, in its
/// own orientation or rotated where permitted.
pub open spec fn orientation_hosts(it: Item, uw: int, uh: int) -> bool {
    (it.width <= uw && it.height <= uh) || (it.can_rotate && it.height <= uw && it.width <= uh)
}

/// How many copies of the item an empty usable area of the given dimensions
/// could hold in a grid, kerf included: full columns times full rows, best
/// over the permitted item orientations.
pub open spec fn spec_panel_capacity(it: Item, uw: int, uh: int, kerf: int) -> int {
    let cap = ((uw + kerf) / (it.width + kerf)) * ((uh + kerf) / (it.height + kerf));
    if it.can_rotate {
        let rcap = ((uw + kerf) / (it.height + kerf)) * ((uh + kerf) / (it.width + kerf));
        if rcap > cap {
            rcap
        } else {
            cap
        }
    } else {
        cap
    }
}

/// The score of opening an empty panel of the given dimensions for the
/// item, placed at the trimming corner in its own orientation when that
/// fits, else rotated.
pub open spec fn new_panel_score(opt: Optimizer, it: Item, pw: int, ph: int, trim: int) -> int {
    let uw = pw - 2 * trim;
    let uh = ph - 2 * trim;
    if it.width <= uw && it.height <= uh {
        spec_placement_score_at(
            trim,
            trim,
            it.width as int,
            it.height as int,
            uw,
            uh,
            Seq::empty(),
            pw,
            ph,
            trim,
            opt.kerf(),
            opt.request.min_initial_usage,
            opt.request.optimize_for_reusable_remnants,
        )
    } else {
        spec_placement_score_at(
            trim,
            trim,
            it.height as int,
            it.width as int,
            uw,
            uh,
            Seq::empty(),
            pw,
            ph,
            trim,
            opt.kerf(),
            opt.request.min_initial_usage,
            opt.request.optimize_for_reusable_remnants,
        )
    }
}

/// Whether an item fits a panel type's usable area, in the type's declared
/// orientation or swapped. Item rotation adds no further freedom here, as
/// it composes with the panel swap.
pub open spec fn item_fits_type(it: Item, p: crate::types::PanelType) -> bool {
    let uw = p.width - 2 * p.trimming;
    let uh = p.height - 2 * p.trimming;
    (it.width <= uw && it.height <= uh) || (it.width <= uh && it.height <= uw)
}

/// Whether some panel type can host the item on an empty panel.
pub open spec fn item_fits_some_type(it: Item, types: Seq<crate::types::PanelType>) -> bool {
    exists|j: int| 0 <= j < types.len() && item_fits_type(it, #[trigger] types[j])
}

impl Optimizer {
    /// Finds the best-scoring feasible position for the item on this
    /// layout: both orientations are tried in every free rectangle, at the
    /// rectangle's bottom-left corner. Returns the placement and its score.
    pub(crate) fn find_best_placement(&self, item: &Item, layout: &PanelLayout) -> (r: (
        Option<(Placement, i128)>,
        Ghost<Seq<UnusedArea>>,
    ))
        requires
            self.wf(),
            layout_bounded(*layout),
            item_ok(*item),
        ensures
            ({
                let rects = r.1@;
                &&& forall|k: int|
                    0 <= k < rects.len() ==> {
                        &&& area_bounded(#[trigger] rects[k])
                        &&& rects[k].width >= 1
                        &&& rects[k].height >= 1
                        &&& rect_inside(area_rect(rects[k]), usable_rect(*layout))
                    }
                &&& forall|k: int, i: int|
                    0 <= k < rects.len() && 0 <= i < layout.placements@.len() ==> !rects_overlap(
                        area_rect(#[trigger] rects[k]),
                        expanded_rect(
                            placement_rect(#[trigger] layout.placements@[i]),
                            self.kerf(),
                        ),
                    )
                &&& forall|q: crate::geom::GRect|
                    #![trigger crate::geom::rect_covered(q, rects)]
                    q.w >= 1 && q.h >= 1 && rect_inside(q, usable_rect(*layout)) && (forall|i: int|
                        0 <= i < layout.placements@.len() ==> !rects_overlap(
                            q,
                            expanded_rect(
                                placement_rect(#[trigger] layout.placements@[i]),
                                self.kerf(),
                            ),
                        )) ==> crate::geom::rect_covered(q, rects)
            }),
            r.0 matches Some((p, s)) ==> forall|k: int|
                0 <= k < r.1@.len() ==> {
                    &&& (item.width <= (#[trigger] r.1@[k]).width && item.height <= r.1@[k].height
                        ==> s <= corner_score(
                        *self,
                        r.1@[k],
                        item.width as int,
                        item.height as int,
                        *layout,
                    ))
                    &&& (item.can_rotate && item.height <= r.1@[k].width && item.width
                        <= r.1@[k].height ==> s <= corner_score(
                        *self,
                        r.1@[k],
                        item.height as int,
                        item.width as int,
                        *layout,
                    ))
                },
            r.0 matches Some((p, s)) ==> {
                &&& placement_matches_item(p, *item)
                &&& placement_fits_layout(p, *layout, self.kerf())
                &&& score_in_range(s)
                &&& exists|a: UnusedArea|
                    {
                        &&& #[trigger] area_admits(a, *item)
                        &&& p.x == a.x
                        &&& p.y == a.y
                        &&& p.width <= a.width
                        &&& p.height <= a.height
                        &&& rect_inside(area_rect(a), usable_rect(*layout))
                        &&& s == spec_placement_score(
                            p.x as int,
                            p.y as int,
                            p.width as int,
                            p.height as int,
                            a,
                            *layout,
                            self.kerf(),
                            self.request.min_initial_usage,
                            self.request.optimize_for_reusable_remnants,
                        )
                    }
            },
            r.0 is None ==> forall|p: Placement|
                placement_matches_item(p, *item) ==> !placement_fits_layout(
                    p,
                    *layout,
                    self.kerf(),
                ),
    {
        let areas = self.find_unused_areas(layout);
        let mut best: Option<(Placement, i128)> = None;
        let n = areas.len();
        let mut a_idx: usize = 0;
        while a_idx < n
            invariant
                self.wf(),
                layout_bounded(*layout),
                item_ok(*item),
                n == areas@.len(),
                0 <= a_idx <= n,
                forall|k: int|
                    0 <= k < areas@.len() ==> {
                        &&& area_bounded(#[trigger] areas@[k])
                        &&& areas@[k].width >= 1
                        &&& areas@[k].height >= 1
                        &&& rect_inside(area_rect(areas@[k]), usable_rect(*layout))
                    },
                forall|k: int, i: int|
                    0 <= k < areas@.len() && 0 <= i < layout.placements@.len() ==> !rects_overlap(
                        area_rect(#[trigger] areas@[k]),
                        expanded_rect(
                            placement_rect(#[trigger] layout.placements@[i]),
                            self.kerf(),
                        ),
                    ),
                best matches Some((p, s)) ==> {
                    &&& placement_matches_item(p, *item)
                    &&& placement_fits_layout(p, *layout, self.kerf())
                    &&& score_in_range(s)
                    &&& exists|a: UnusedArea|
                    {
                        &&& #[trigger] area_admits(a, *item)
                        &&& p.x == a.x
                        &&& p.y == a.y
                        &&& p.width <= a.width
                        &&& p.height <= a.height
                        &&& rect_inside(area_rect(a), usable_rect(*layout))
                        &&& s == spec_placement_score(
                            p.x as int,
                            p.y as int,
                            p.width as int,
                            p.height as int,
                            a,
                            *layout,
                            self.kerf(),
                            self.request.min_initial_usage,
                            self.request.optimize_for_reusable_remnants,
                        )
                    }
                },
                best is None ==> forall|k: int|
                    0 <= k < a_idx ==> !area_admits(#[trigger] areas@[k], *item),
                best matches Some((p, s)) ==> forall|k: int|
                    0 <= k < a_idx ==> {
                        &&& (item.width <= (#[trigger] areas@[k]).width && item.height
                            <= areas@[k].height ==> s <= corner_score(
                            *self,
                            areas@[k],
                            item.width as int,
                            item.height as int,
                            *layout,
                        ))
                        &&& (item.can_rotate && item.height <= areas@[k].width && item.width
                            <= areas@[k].height ==> s <= corner_score(
                            *self,
                            areas@[k],
                            item.height as int,
                            item.width as int,
                            *layout,
                        ))
                    },
            decreases n - a_idx,
        {
            let area = areas[a_idx];

            // The item's own orientation.
            if item.width <= area.width && item.height <= area.height {
                let score = self.calculate_placement_score(
                    area.x,
                    area.y,
                    item.width,
                    item.height,
                    &area,
                    layout,
                );
                let placement = Placement {
                    item_id: item.id.clone(),
                    x: area.x,
                    y: area.y,
                    width: item.width,
                    height: item.height,
                    rotated: false,
                };
                proof {
                    lemma_candidate_fits(placement, area, *layout, self.kerf());
                    assert(area_admits(area, *item));
                }
                let replace = match &best {
                    None => true,
                    Some((_, best_score)) => score < *best_score,
                };
                if replace {
                    best = Some((placement, score));
                }
            }

            // The rotated orientation.
            if item.can_rotate && item.height <= area.width && item.width <= area.height {
                let score = self.calculate_placement_score(
                    area.x,
                    area.y,
                    item.height,
                    item.width,
                    &area,
                    layout,
                );
                let placement = Placement {
                    item_id: item.id.clone(),
                    x: area.x,
                    y: area.y,
                    width: item.height,
                    height: item.width,
                    rotated: true,
                };
                proof {
                    lemma_candidate_fits(placement, area, *layout, self.kerf());
                    assert(area_admits(area, *item));
                }
                let replace = match &best {
                    None => true,
                    Some((_, best_score)) => score < *best_score,
                };
                if replace {
                    best = Some((placement, score));
                }
            }
            a_idx += 1;
        }
        proof {
            if best is None {
                lemma_no_admitting_area_means_no_fit(areas@, *item, *layout, self.kerf());
            }
        }
        (best, Ghost(areas@))
    }

    /// Enumerates every feasible placement for the item on this layout,
    /// with its score and the free rectangle's dimensions.
    pub(crate) fn generate_candidate_placements(&self, item: &Item, layout: &PanelLayout) -> (r:
        Vec<CandidatePlacement>)
        requires
            self.wf(),
            layout_bounded(*layout),
            item_ok(*item),
        ensures
            forall|c: int|
                0 <= c < r@.len() ==> {
                    &&& placement_matches_item((#[trigger] r@[c]).placement, *item)
                    &&& placement_fits_layout(r@[c].placement, *layout, self.kerf())
                    &&& score_in_range(r@[c].score)
                    &&& r@[c].area_width >= r@[c].placement.width
                    &&& r@[c].area_height >= r@[c].placement.height
                    &&& rect_inside(
                        area_rect(
                            (UnusedArea {
                                x: r@[c].placement.x,
                                y: r@[c].placement.y,
                                width: r@[c].area_width,
                                height: r@[c].area_height,
                            }),
                        ),
                        usable_rect(*layout),
                    )
                    &&& r@[c].score == spec_placement_score(
                        r@[c].placement.x as int,
                        r@[c].placement.y as int,
                        r@[c].placement.width as int,
                        r@[c].placement.height as int,
                        (UnusedArea {
                            x: r@[c].placement.x,
                            y: r@[c].placement.y,
                            width: r@[c].area_width,
                            height: r@[c].area_height,
                        }),
                        *layout,
                        self.kerf(),
                        self.request.min_initial_usage,
                        self.request.optimize_for_reusable_remnants,
                    )
                },
            r@.len() == 0 ==> forall|p: Placement|
                placement_matches_item(p, *item) ==> !placement_fits_layout(
                    p,
                    *layout,
                    self.kerf(),
                ),
    {
        let areas = self.find_unused_areas(layout);
        let mut candidates: Vec<CandidatePlacement> = Vec::new();
        let n = areas.len();
        let mut a_idx: usize = 0;
        while a_idx < n
            invariant
                self.wf(),
                layout_bounded(*layout),
                item_ok(*item),
                n == areas@.len(),
                0 <= a_idx <= n,
                forall|k: int|
                    0 <= k < areas@.len() ==> {
                        &&& area_bounded(#[trigger] areas@[k])
                        &&& areas@[k].width >= 1
                        &&& areas@[k].height >= 1
                        &&& rect_inside(area_rect(areas@[k]), usable_rect(*layout))
                    },
                forall|k: int, i: int|
                    0 <= k < areas@.len() && 0 <= i < layout.placements@.len() ==> !rects_overlap(
                        area_rect(#[trigger] areas@[k]),
                        expanded_rect(
                            placement_rect(#[trigger] layout.placements@[i]),
                            self.kerf(),
                        ),
                    ),
                forall|c: int|
                    0 <= c < candidates@.len() ==> {
                        &&& placement_matches_item((#[trigger] candidates@[c]).placement, *item)
                        &&& placement_fits_layout(candidates@[c].placement, *layout, self.kerf())
                        &&& score_in_range(candidates@[c].score)
                        &&& candidates@[c].area_width >= candidates@[c].placement.width
                        &&& candidates@[c].area_height >= candidates@[c].placement.height
                        &&& rect_inside(
                            area_rect(
                                (UnusedArea {
                                    x: candidates@[c].placement.x,
                                    y: candidates@[c].placement.y,
                                    width: candidates@[c].area_width,
                                    height: candidates@[c].area_height,
                                }),
                            ),
                            usable_rect(*layout),
                        )
                        &&& candidates@[c].score == spec_placement_score(
                            candidates@[c].placement.x as int,
                            candidates@[c].placement.y as int,
                            candidates@[c].placement.width as int,
                            candidates@[c].placement.height as int,
                            (UnusedArea {
                                x: candidates@[c].placement.x,
                                y: candidates@[c].placement.y,
                                width: candidates@[c].area_width,
                                height: candidates@[c].area_height,
                            }),
                            *layout,
                            self.kerf(),
                            self.request.min_initial_usage,
                            self.request.optimize_for_reusable_remnants,
                        )
                    },
                candidates@.len() == 0 ==> forall|k: int|
                    0 <= k < a_idx ==> !area_admits(#[trigger] areas@[k], *item),
            decreases n - a_idx,
        {
            let area = areas[a_idx];

            if item.width <= area.width && item.height <= area.height {
                let score = self.calculate_placement_score(
                    area.x,
                    area.y,
                    item.width,
                    item.height,
                    &area,
                    layout,
                );
                let placement = Placement {
                    item_id: item.id.clone(),
                    x: area.x,
                    y: area.y,
                    width: item.width,
                    height: item.height,
                    rotated: false,
                };
                proof {
                    lemma_candidate_fits(placement, area, *layout, self.kerf());
                }
                candidates.push(
                    CandidatePlacement {
                        placement,
                        score,
                        area_width: area.width,
                        area_height: area.height,
                    },
                );
            }

            if item.can_rotate && item.height <= area.width && item.width <= area.height {
                let score = self.calculate_placement_score(
                    area.x,
                    area.y,
                    item.height,
                    item.width,
                    &area,
                    layout,
                );
                let placement = Placement {
                    item_id: item.id.clone(),
                    x: area.x,
                    y: area.y,
                    width: item.height,
                    height: item.width,
                    rotated: true,
                };
                proof {
                    lemma_candidate_fits(placement, area, *layout, self.kerf());
                }
                candidates.push(
                    CandidatePlacement {
                        placement,
                        score,
                        area_width: area.width,
                        area_height: area.height,
                    },
                );
            }
            a_idx += 1;
        }
        proof {
            if candidates@.len() == 0 {
                lemma_no_admitting_area_means_no_fit(areas@, *item, *layout, self.kerf());
            }
        }
        candidates
    }

    /// Scores hosting the item on an empty panel of the given dimensions,
    /// placed at the trimming corner, preferring the item's own
    /// orientation; also estimates how many copies of the item the panel
    /// could hold.
    fn score_new_panel(
        &self,
        item: &Item,
        panel_id: &String,
        pw: i64,
        ph: i64,
        trimming: i64,
    ) -> (r: Option<(PanelLayout, i128, i128)>)
        requires
            self.wf(),
            item_ok(*item),
            1 <= pw <= MAX_DIM,
            1 <= ph <= MAX_DIM,
            0 <= trimming <= MAX_DIM,
            pw - 2 * trimming >= 1,
            ph - 2 * trimming >= 1,
        ensures
            r matches Some((l, cap, score)) ==> {
                &&& layout_wf(l, self.kerf())
                &&& l.placements@.len() == 1
                &&& placement_matches_item(l.placements@[0], *item)
                &&& l.placements@[0].x == trimming
                &&& l.placements@[0].y == trimming
                &&& (l.placements@[0].rotated ==> !(item.width <= pw - 2 * trimming && item.height
                    <= ph - 2 * trimming))
                &&& l.panel_type_id@ == panel_id@
                &&& l.panel_number == 1
                &&& l.width == pw
                &&& l.height == ph
                &&& l.trimming == trimming
                &&& l.unused_areas@.len() == 0
                &&& cap == spec_panel_capacity(
                    *item,
                    pw - 2 * trimming,
                    ph - 2 * trimming,
                    self.kerf(),
                )
                &&& score == new_panel_score(*self, *item, pw as int, ph as int, trimming as int)
            },
            r.is_some() <==> orientation_hosts(*item, pw - 2 * trimming, ph - 2 * trimming),
    {
        let usable_width = pw - trimming * 2;
        let usable_height = ph - trimming * 2;
        let fits_normal = item.width <= usable_width && item.height <= usable_height;
        let fits_rotated = item.can_rotate && item.height <= usable_width && item.width
            <= usable_height;
        if !fits_normal && !fits_rotated {
            return None;
        }
        let kerf = self.request.cut_width;

        // Estimated capacity: full columns times full rows of this item,
        // best over the permitted item orientations.
        let cols = (usable_width + kerf) / (item.width + kerf);
        let rows = (usable_height + kerf) / (item.height + kerf);
        proof {
            lemma_div_in_range(usable_width + kerf, item.width + kerf);
            lemma_div_in_range(usable_height + kerf, item.height + kerf);
            assert((cols as int) * (rows as int) <= 16 * MAX_DIM * MAX_DIM) by (nonlinear_arith)
                requires
                    0 <= cols <= 2 * MAX_DIM,
                    0 <= rows <= 2 * MAX_DIM,
            ;
        }
        let mut capacity: i128 = (cols as i128) * (rows as i128);
        if item.can_rotate {
            let r_cols = (usable_width + kerf) / (item.height + kerf);
            let r_rows = (usable_height + kerf) / (item.width + kerf);
            proof {
                lemma_div_in_range(usable_width + kerf, item.height + kerf);
                lemma_div_in_range(usable_height + kerf, item.width + kerf);
                assert((r_cols as int) * (r_rows as int) <= 16 * MAX_DIM * MAX_DIM)
                    by (nonlinear_arith)
                    requires
                        0 <= r_cols <= 2 * MAX_DIM,
                        0 <= r_rows <= 2 * MAX_DIM,
                ;
            }
            let rotated_capacity: i128 = (r_cols as i128) * (r_rows as i128);
            if rotated_capacity > capacity {
                capacity = rotated_capacity;
            }
        }

        let mut layout = PanelLayout {
            panel_type_id: panel_id.clone(),
            panel_number: 1,
            width: pw,
            height: ph,
            trimming,
            placements: Vec::new(),
            unused_areas: Vec::new(),
        };
        let (p_width, p_height, rotated) = if fits_normal {
            (item.width, item.height, false)
        } else {
            (item.height, item.width, true)
        };
        let corner = UnusedArea {
            x: trimming,
            y: trimming,
            width: usable_width,
            height: usable_height,
        };
        let score = self.calculate_placement_score(
            trimming,
            trimming,
            p_width,
            p_height,
            &corner,
            &layout,
        );
        let placement = Placement {
            item_id: item.id.clone(),
            x: trimming,
            y: trimming,
            width: p_width,
            height: p_height,
            rotated,
        };
        layout.placements.push(placement);
        Some((layout, capacity, score))
    }

    /// Opens a new panel for an item no open layout can take. Panel types
    /// are tried in declared order and in both orientations (unless
    /// square); among the candidates, higher estimated capacity wins, with
    /// lower score breaking ties. Fails with `CannotFitAll` exactly when no
    /// panel type can host the item.
    pub(crate) fn place_on_new_panel(&self, item: &Item) -> (r: Result<PanelLayout, OptimizerError>)
        requires
            self.wf(),
            item_ok(*item),
        ensures
            match r {
                Ok(l) => {
                    &&& item_fits_some_type(*item, self.request.panel_types@)
                    &&& layout_wf(l, self.kerf())
                    &&& l.placements@.len() == 1
                    &&& placement_matches_item(l.placements@[0], *item)
                    &&& l.placements@[0].x == l.trimming
                    &&& l.placements@[0].y == l.trimming
                    &&& (l.placements@[0].rotated ==> !(item.width <= l.width - 2 * l.trimming
                        && item.height <= l.height - 2 * l.trimming))
                    &&& exists|j: int|
                        0 <= j < self.request.panel_types@.len() && layout_of_type(
                            l,
                            #[trigger] self.request.panel_types@[j],
                        )
                    &&& l.unused_areas@.len() == 0
                    &&& forall|j: int|
                        0 <= j < self.request.panel_types@.len() ==> {
                            let t = #[trigger] self.request.panel_types@[j];
                            let chosen_cap = spec_panel_capacity(
                                *item,
                                l.width - 2 * l.trimming,
                                l.height - 2 * l.trimming,
                                self.kerf(),
                            );
                            let chosen_score = new_panel_score(
                                *self,
                                *item,
                                l.width as int,
                                l.height as int,
                                l.trimming as int,
                            );
                            &&& (orientation_hosts(
                                *item,
                                t.width - 2 * t.trimming,
                                t.height - 2 * t.trimming,
                            ) ==> spec_panel_capacity(
                                *item,
                                t.width - 2 * t.trimming,
                                t.height - 2 * t.trimming,
                                self.kerf(),
                            ) < chosen_cap || (spec_panel_capacity(
                                *item,
                                t.width - 2 * t.trimming,
                                t.height - 2 * t.trimming,
                                self.kerf(),
                            ) == chosen_cap && chosen_score <= new_panel_score(
                                *self,
                                *item,
                                t.width as int,
                                t.height as int,
                                t.trimming as int,
                            )))
                            &&& (orientation_hosts(
                                *item,
                                t.height - 2 * t.trimming,
                                t.width - 2 * t.trimming,
                            ) ==> spec_panel_capacity(
                                *item,
                                t.height - 2 * t.trimming,
                                t.width - 2 * t.trimming,
                                self.kerf(),
                            ) < chosen_cap || (spec_panel_capacity(
                                *item,
                                t.height - 2 * t.trimming,
                                t.width - 2 * t.trimming,
                                self.kerf(),
                            ) == chosen_cap && chosen_score <= new_panel_score(
                                *self,
                                *item,
                                t.height as int,
                                t.width as int,
                                t.trimming as int,
                            )))
                        }
                },
                Err(e) => e matches OptimizerError::CannotFitAll && !item_fits_some_type(
                    *item,
                    self.request.panel_types@,
                ),
            },
    {
        let mut best: Option<(PanelLayout, i128, i128)> = None;
        let ghost types = self.request.panel_types@;
        let n = self.request.panel_types.len();
        let mut t_idx: usize = 0;
        while t_idx < n
            invariant
                self.wf(),
                item_ok(*item),
                types == self.request.panel_types@,
                n == types.len(),
                0 <= t_idx <= n,
                best is Some <==> exists|j: int|
                    0 <= j < t_idx && item_fits_type(*item, #[trigger] types[j]),
                best matches Some((l, cap, score)) ==> {
                    &&& layout_wf(l, self.kerf())
                    &&& l.placements@.len() == 1
                    &&& placement_matches_item(l.placements@[0], *item)
                    &&& l.placements@[0].x == l.trimming
                    &&& l.placements@[0].y == l.trimming
                    &&& (l.placements@[0].rotated ==> !(item.width <= l.width - 2 * l.trimming
                        && item.height <= l.height - 2 * l.trimming))
                    &&& exists|j: int| 0 <= j < t_idx && layout_of_type(l, #[trigger] types[j])
                    &&& l.unused_areas@.len() == 0
                    &&& cap == spec_panel_capacity(
                        *item,
                        l.width - 2 * l.trimming,
                        l.height - 2 * l.trimming,
                        self.kerf(),
                    )
                    &&& score == new_panel_score(
                        *self,
                        *item,
                        l.width as int,
                        l.height as int,
                        l.trimming as int,
                    )
                    &&& forall|j: int|
                        0 <= j < t_idx ==> {
                            let t = #[trigger] types[j];
                            &&& (orientation_hosts(
                                *item,
                                t.width - 2 * t.trimming,
                                t.height - 2 * t.trimming,
                            ) ==> spec_panel_capacity(
                                *item,
                                t.width - 2 * t.trimming,
                                t.height - 2 * t.trimming,
                                self.kerf(),
                            ) < cap || (spec_panel_capacity(
                                *item,
                                t.width - 2 * t.trimming,
                                t.height - 2 * t.trimming,
                                self.kerf(),
                            ) == cap && score <= new_panel_score(
                                *self,
                                *item,
                                t.width as int,
                                t.height as int,
                                t.trimming as int,
                            )))
                            &&& (orientation_hosts(
                                *item,
                                t.height - 2 * t.trimming,
                                t.width - 2 * t.trimming,
                            ) ==> spec_panel_capacity(
                                *item,
                                t.height - 2 * t.trimming,
                                t.width - 2 * t.trimming,
                                self.kerf(),
                            ) < cap || (spec_panel_capacity(
                                *item,
                                t.height - 2 * t.trimming,
                                t.width - 2 * t.trimming,
                                self.kerf(),
                            ) == cap && score <= new_panel_score(
                                *self,
                                *item,
                                t.height as int,
                                t.width as int,
                                t.trimming as int,
                            )))
                        }
                },
            decreases n - t_idx,
        {
            let panel = &self.request.panel_types[t_idx];

            let normal = self.score_new_panel(item, &panel.id, panel.width, panel.height, panel.trimming);
            let swapped = if panel.width != panel.height {
                self.score_new_panel(item, &panel.id, panel.height, panel.width, panel.trimming)
            } else {
                None
            };
            proof {
                if item_fits_type(*item, types[t_idx as int]) {
                    assert(normal.is_some() || swapped.is_some());
                }
            }

            let mut t_best = normal;
            if let Some((s_layout, s_cap, s_score)) = swapped {
                let replace = match &t_best {
                    None => true,
                    Some((_, cap, score)) => s_cap > *cap || (s_cap == *cap && s_score < *score),
                };
                if replace {
                    t_best = Some((s_layout, s_cap, s_score));
                }
            }

            if let Some((t_layout, t_cap, t_score)) = t_best {
                proof {
                    assert(layout_of_type(t_layout, types[t_idx as int]));
                    assert(item_fits_type(*item, types[t_idx as int]));
                }
                let replace = match &best {
                    None => true,
                    Some((_, cap, score)) => t_cap > *cap || (t_cap == *cap && t_score < *score),
                };
                if replace {
                    best = Some((t_layout, t_cap, t_score));
                }
            }
            t_idx += 1;
        }
        match best {
            Some((layout, _, _)) => Ok(layout),
            None => Err(OptimizerError::CannotFitAll),
        }
    }
}

/// A non-negative quantity divided by a positive one stays within the
/// dividend's range.
proof fn lemma_div_in_range(a: int, b: int)
    requires
        0 <= a,
        1 <= b,
    ensures
        0 <= a / b <= a,
{
    assert(0 <= a / b <= a) by (nonlinear_arith)
        requires
            0 <= a,
            1 <= b,
    ;
}

/// When no free rectangle of a covering set admits the item in either
/// permitted orientation, no placement of the item fits the layout at all:
/// a fitting placement would be a free box, hence inside some free
/// rectangle, which would then admit the item.
proof fn lemma_no_admitting_area_means_no_fit(
    areas: Seq<UnusedArea>,
    item: Item,
    layout: PanelLayout,
    kerf: int,
)
    requires
        item_ok(item),
        forall|k: int| 0 <= k < areas.len() ==> !area_admits(#[trigger] areas[k], item),
        forall|q: crate::geom::GRect|
            #![trigger crate::geom::rect_covered(q, areas)]
            q.w >= 1 && q.h >= 1 && rect_inside(q, usable_rect(layout)) && (forall|i: int|
                0 <= i < layout.placements@.len() ==> !rects_overlap(
                    q,
                    expanded_rect(placement_rect(#[trigger] layout.placements@[i]), kerf),
                )) ==> crate::geom::rect_covered(q, areas),
    ensures
        forall|p: Placement|
            placement_matches_item(p, item) ==> !placement_fits_layout(p, layout, kerf),
{
    assert forall|p: Placement|
        placement_matches_item(p, item) implies !placement_fits_layout(p, layout, kerf) by {
        if placement_fits_layout(p, layout, kerf) {
            let q = placement_rect(p);
            assert(q.w >= 1 && q.h >= 1);
            assert(rect_inside(q, usable_rect(layout)));
            assert forall|i: int| 0 <= i < layout.placements@.len() implies !rects_overlap(
                q,
                expanded_rect(placement_rect(#[trigger] layout.placements@[i]), kerf),
            ) by {
                assert(!rects_overlap(
                    expanded_rect(placement_rect(layout.placements@[i]), kerf),
                    q,
                ));
            }
            assert(crate::geom::rect_covered(q, areas));
            let k = choose|k: int|
                0 <= k < areas.len() && rect_inside(q, area_rect(#[trigger] areas[k]));
            assert(area_admits(areas[k], item));
            assert(false);
        }
    }
}

/// A placement at the bottom-left corner of a free rectangle, with
/// dimensions no larger than the rectangle's, inherits everything the
/// tracker guarantees of the rectangle.
proof fn lemma_candidate_fits(p: Placement, area: UnusedArea, l: PanelLayout, kerf: int)
    requires
        p.x == area.x,
        p.y == area.y,
        1 <= p.width <= area.width,
        1 <= p.height <= area.height,
        rect_inside(area_rect(area), usable_rect(l)),
        forall|i: int|
            0 <= i < l.placements@.len() ==> !rects_overlap(
                area_rect(area),
                expanded_rect(placement_rect(#[trigger] l.placements@[i]), kerf),
            ),
    ensures
        placement_fits_layout(p, l, kerf),
{
    assert(rect_inside(placement_rect(p), area_rect(area)));
    assert forall|i: int| 0 <= i < l.placements@.len() implies !rects_overlap(
        expanded_rect(placement_rect(#[trigger] l.placements@[i]), kerf),
        placement_rect(p),
    ) by {
        lemma_inside_avoids(
            placement_rect(p),
            area_rect(area),
            expanded_rect(placement_rect(l.placements@[i]), kerf),
        );
    }
}

} // verus!

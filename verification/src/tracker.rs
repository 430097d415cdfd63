//! Free-rectangle tracking (maxrects): for a panel in progress, the set of
//! rectangles of space that no placement has reserved.
//!
//! The set is a superset cover of the free region: rectangles may overlap
//! each other, and consumers treat them as candidate positions. Every
//! returned rectangle lies inside the usable area and stays clear of the
//! kerf-expanded rectangle of every placement on the layout; conversely,
//! every rectangle of entirely free space lies inside one of the returned
//! maximal rectangles.

use vstd::prelude::*;

use crate::geom::{
    area_bounded, area_rect, expanded_rect, lemma_covered_extend, lemma_inside_avoids,
    layout_bounded, placement_rect, rect_covered, rect_inside, rects_overlap, usable_rect, GRect,
};
use crate::optimizer::Optimizer;
use crate::output::spec_area;
use crate::types::{PanelLayout, UnusedArea, MAX_DIM};

verus! {

impl UnusedArea {
    /// Does this rectangle fully contain the other?
    pub fn contains(&self, other: &UnusedArea) -> (r: bool)
        requires
            area_bounded(*self),
            area_bounded(*other),
        ensures
            r == rect_inside(area_rect(*other), area_rect(*self)),
    {
        other.x >= self.x && other.y >= self.y && other.x + other.width <= self.x + self.width
            && other.y + other.height <= self.y + self.height
    }

    /// Do the two rectangles share a point?
    pub fn overlaps(&self, other: &UnusedArea) -> (r: bool)
        requires
            area_bounded(*self),
            area_bounded(*other),
        ensures
            r == rects_overlap(area_rect(*self), area_rect(*other)),
    {
        self.x < other.x + other.width && self.x + self.width > other.x && self.y < other.y
            + other.height && self.y + self.height > other.y
    }
}

/// Rectangle `j` displaces rectangle `i` during pruning: it contains `i`
/// and is either strictly larger or an equal rectangle earlier in the list
/// (so exactly one of several equal rectangles survives).
pub open spec fn displaces(rects: Seq<UnusedArea>, j: int, i: int) -> bool {
    &&& rect_inside(area_rect(rects[i]), area_rect(rects[j]))
    &&& (!rect_inside(area_rect(rects[j]), area_rect(rects[i])) || j < i)
}

/// A rectangle that no other rectangle of the list displaces.
pub open spec fn kept_maximal(rects: Seq<UnusedArea>, i: int) -> bool {
    forall|j: int| 0 <= j < rects.len() ==> !#[trigger] displaces(rects, j, i)
}

/// Every rectangle of the list lies inside one that pruning keeps: follow
/// the displacing rectangle, which is strictly larger or, among equals, has
/// a smaller index, until a kept one is reached.
proof fn lemma_keeper_exists(rects: Seq<UnusedArea>, i: int)
    requires
        0 <= i < rects.len(),
        forall|k: int|
            0 <= k < rects.len() ==> area_bounded(#[trigger] rects[k]) && rects[k].width >= 1
                && rects[k].height >= 1,
    ensures
        exists|j: int|
            0 <= j < rects.len() && kept_maximal(rects, j) && rect_inside(
                area_rect(rects[i]),
                area_rect(#[trigger] rects[j]),
            ),
    decreases 16 * MAX_DIM * MAX_DIM - spec_area(rects[i]), i,
{
    assert(1 <= spec_area(rects[i]) <= 16 * MAX_DIM * MAX_DIM) by (nonlinear_arith)
        requires
            1 <= rects[i].width,
            1 <= rects[i].height,
            rects[i].width <= 4 * MAX_DIM,
            rects[i].height <= 4 * MAX_DIM,
    ;
    if kept_maximal(rects, i) {
        assert(rect_inside(area_rect(rects[i]), area_rect(rects[i])));
    } else {
        let j = choose|j: int| 0 <= j < rects.len() && #[trigger] displaces(rects, j, i);
        if !rect_inside(area_rect(rects[j]), area_rect(rects[i])) {
            // Strict containment: the container's area is strictly larger.
            assert(spec_area(rects[i]) < spec_area(rects[j])) by (nonlinear_arith)
                requires
                    1 <= rects[i].width <= rects[j].width,
                    1 <= rects[i].height <= rects[j].height,
                    rects[j].width > rects[i].width || rects[j].height > rects[i].height,
            ;
        } else {
            // Mutual containment: the rectangles are equal, and the
            // displacing one comes earlier.
            assert(rects[j] == rects[i]);
            assert(j < i);
        }
        assert(1 <= spec_area(rects[j]) <= 16 * MAX_DIM * MAX_DIM) by (nonlinear_arith)
            requires
                1 <= rects[j].width,
                1 <= rects[j].height,
                rects[j].width <= 4 * MAX_DIM,
                rects[j].height <= 4 * MAX_DIM,
        ;
        lemma_keeper_exists(rects, j);
        let k = choose|k: int|
            0 <= k < rects.len() && kept_maximal(rects, k) && rect_inside(
                area_rect(rects[j]),
                area_rect(#[trigger] rects[k]),
            );
        assert(rect_inside(area_rect(rects[i]), area_rect(rects[k])));
    }
}

impl Optimizer {
    /// Splits one free rectangle around a reserved rectangle, pushing the
    /// up-to-four residual strips (or the rectangle itself when it does not
    /// meet the reservation) onto `out`. Everything of the rectangle that
    /// clears the reservation is inside one of the pushed strips.
    fn split_one_rect(rect: &UnusedArea, placed: &UnusedArea, out: &mut Vec<UnusedArea>)
        requires
            area_bounded(*rect),
            area_bounded(*placed),
            rect.width >= 1,
            rect.height >= 1,
        ensures
            final(out)@.len() >= old(out)@.len(),
            forall|k: int| 0 <= k < old(out)@.len() ==> final(out)@[k] == old(out)@[k],
            forall|k: int|
                old(out)@.len() <= k < final(out)@.len() ==> {
                    &&& rect_inside(area_rect(#[trigger] final(out)@[k]), area_rect(*rect))
                    &&& !rects_overlap(area_rect(final(out)@[k]), area_rect(*placed))
                    &&& area_bounded(final(out)@[k])
                    &&& final(out)@[k].width >= 1
                    &&& final(out)@[k].height >= 1
                },
            forall|q: GRect|
                #![trigger rect_covered(q, final(out)@)]
                q.w >= 1 && q.h >= 1 && rect_inside(q, area_rect(*rect)) && !rects_overlap(
                    q,
                    area_rect(*placed),
                ) ==> rect_covered(q, final(out)@),
    {
        if !rect.overlaps(placed) {
            out.push(*rect);
            proof {
                assert forall|q: GRect| #![trigger rect_covered(q, out@)]
                    q.w >= 1 && q.h >= 1 && rect_inside(q, area_rect(*rect)) && !rects_overlap(
                        q,
                        area_rect(*placed),
                    ) implies rect_covered(q, out@) by {
                    assert(rect_inside(q, area_rect(out@[out@.len() - 1])));
                }
            }
            return ;
        }
        let ghost mut left_idx: int = -1;
        let ghost mut right_idx: int = -1;
        let ghost mut bottom_idx: int = -1;
        let ghost mut top_idx: int = -1;

        // Left strip: from the rectangle's left edge to the reservation.
        let left_strip = UnusedArea {
            x: rect.x,
            y: rect.y,
            width: placed.x - rect.x,
            height: rect.height,
        };
        if placed.x > rect.x {
            out.push(left_strip);
            proof {
                left_idx = out@.len() - 1;
            }
        }
        // Right strip: from the reservation's right edge onward.
        let placed_right = placed.x + placed.width;
        let rect_right = rect.x + rect.width;
        let right_strip = UnusedArea {
            x: placed_right,
            y: rect.y,
            width: rect_right - placed_right,
            height: rect.height,
        };
        if placed_right < rect_right {
            out.push(right_strip);
            proof {
                right_idx = out@.len() - 1;
            }
        }
        // Bottom strip: below the reservation.
        let bottom_strip = UnusedArea {
            x: rect.x,
            y: rect.y,
            width: rect.width,
            height: placed.y - rect.y,
        };
        if placed.y > rect.y {
            out.push(bottom_strip);
            proof {
                bottom_idx = out@.len() - 1;
            }
        }
        // Top strip: above the reservation.
        let placed_top = placed.y + placed.height;
        let rect_top = rect.y + rect.height;
        let top_strip = UnusedArea {
            x: rect.x,
            y: placed_top,
            width: rect.width,
            height: rect_top - placed_top,
        };
        if placed_top < rect_top {
            out.push(top_strip);
            proof {
                top_idx = out@.len() - 1;
            }
        }
        proof {
            assert forall|q: GRect| #![trigger rect_covered(q, out@)]
                q.w >= 1 && q.h >= 1 && rect_inside(q, area_rect(*rect)) && !rects_overlap(
                    q,
                    area_rect(*placed),
                ) implies rect_covered(q, out@) by {
                let pr = area_rect(*placed);
                if q.x + q.w <= pr.x {
                    // The box ends left of the reservation.
                    assert(0 <= left_idx < out@.len());
                    assert(out@[left_idx] == left_strip);
                    assert(rect_inside(q, area_rect(out@[left_idx])));
                } else if q.x >= pr.x + pr.w {
                    assert(0 <= right_idx < out@.len());
                    assert(out@[right_idx] == right_strip);
                    assert(rect_inside(q, area_rect(out@[right_idx])));
                } else if q.y + q.h <= pr.y {
                    assert(0 <= bottom_idx < out@.len());
                    assert(out@[bottom_idx] == bottom_strip);
                    assert(rect_inside(q, area_rect(out@[bottom_idx])));
                } else {
                    assert(q.y >= pr.y + pr.h);
                    assert(0 <= top_idx < out@.len());
                    assert(out@[top_idx] == top_strip);
                    assert(rect_inside(q, area_rect(out@[top_idx])));
                }
            }
        }
    }

    /// Splits every free rectangle around a newly reserved rectangle and
    /// prunes rectangles contained in others, keeping only maximal ones.
    ///
    /// The ghost arguments carry what the caller knows of the incoming
    /// rectangles: they all lie inside `outer` and clear of every rectangle
    /// in `obstacles`. Both facts survive the split, the result clears the
    /// new reservation, and any box that was inside an incoming rectangle
    /// and clears the reservation is inside an outgoing rectangle.
    pub(crate) fn split_free_rects_around_placement(
        &self,
        free_rects: Vec<UnusedArea>,
        placed: &UnusedArea,
        Ghost(outer): Ghost<GRect>,
        Ghost(obstacles): Ghost<Seq<GRect>>,
    ) -> (res: Vec<UnusedArea>)
        requires
            area_bounded(*placed),
            forall|k: int|
                0 <= k < free_rects@.len() ==> {
                    &&& area_bounded(#[trigger] free_rects@[k])
                    &&& free_rects@[k].width >= 1
                    &&& free_rects@[k].height >= 1
                    &&& rect_inside(area_rect(free_rects@[k]), outer)
                },
            forall|k: int, o: int|
                0 <= k < free_rects@.len() && 0 <= o < obstacles.len() ==> !rects_overlap(
                    area_rect(#[trigger] free_rects@[k]),
                    #[trigger] obstacles[o],
                ),
        ensures
            forall|k: int|
                0 <= k < res@.len() ==> {
                    &&& !rects_overlap(area_rect(#[trigger] res@[k]), area_rect(*placed))
                    &&& area_bounded(res@[k])
                    &&& res@[k].width >= 1
                    &&& res@[k].height >= 1
                    &&& rect_inside(area_rect(res@[k]), outer)
                },
            forall|k: int, o: int|
                0 <= k < res@.len() && 0 <= o < obstacles.len() ==> !rects_overlap(
                    area_rect(#[trigger] res@[k]),
                    #[trigger] obstacles[o],
                ),
            forall|q: GRect|
                #![trigger rect_covered(q, res@)]
                q.w >= 1 && q.h >= 1 && rect_covered(q, free_rects@) && !rects_overlap(
                    q,
                    area_rect(*placed),
                ) ==> rect_covered(q, res@),
            forall|p: int, k: int|
                0 <= p < res@.len() && 0 <= k < res@.len() && p != k ==> !rect_inside(
                    area_rect(#[trigger] res@[k]),
                    area_rect(#[trigger] res@[p]),
                ),
            forall|k: int|
                0 <= k < res@.len() ==> rect_covered(area_rect(#[trigger] res@[k]), free_rects@),
    {
        let mut new_free_rects: Vec<UnusedArea> = Vec::new();
        let n = free_rects.len();
        let mut idx: usize = 0;
        while idx < n
            invariant
                n == free_rects@.len(),
                0 <= idx <= n,
                area_bounded(*placed),
                forall|k: int|
                    0 <= k < free_rects@.len() ==> {
                        &&& area_bounded(#[trigger] free_rects@[k])
                        &&& free_rects@[k].width >= 1
                        &&& free_rects@[k].height >= 1
                        &&& rect_inside(area_rect(free_rects@[k]), outer)
                    },
                forall|k: int, o: int|
                    0 <= k < free_rects@.len() && 0 <= o < obstacles.len() ==> !rects_overlap(
                        area_rect(#[trigger] free_rects@[k]),
                        #[trigger] obstacles[o],
                    ),
                forall|k: int|
                    0 <= k < new_free_rects@.len() ==> {
                        &&& !rects_overlap(
                            area_rect(#[trigger] new_free_rects@[k]),
                            area_rect(*placed),
                        )
                        &&& area_bounded(new_free_rects@[k])
                        &&& new_free_rects@[k].width >= 1
                        &&& new_free_rects@[k].height >= 1
                        &&& rect_inside(area_rect(new_free_rects@[k]), outer)
                    },
                forall|k: int, o: int|
                    0 <= k < new_free_rects@.len() && 0 <= o < obstacles.len() ==> !rects_overlap(
                        area_rect(#[trigger] new_free_rects@[k]),
                        #[trigger] obstacles[o],
                    ),
                forall|q: GRect, i: int|
                    #![trigger rect_inside(q, area_rect(free_rects@[i]))]
                    q.w >= 1 && q.h >= 1 && 0 <= i < idx && rect_inside(
                        q,
                        area_rect(free_rects@[i]),
                    ) && !rects_overlap(q, area_rect(*placed)) ==> rect_covered(
                        q,
                        new_free_rects@,
                    ),
                forall|k: int|
                    0 <= k < new_free_rects@.len() ==> rect_covered(
                        area_rect(#[trigger] new_free_rects@[k]),
                        free_rects@,
                    ),
            decreases n - idx,
        {
            let ghost prev_len = new_free_rects@.len() as int;
            let ghost prev_rects = new_free_rects@;
            Self::split_one_rect(&free_rects[idx], placed, &mut new_free_rects);
            proof {
                assert forall|k: int| 0 <= k < new_free_rects@.len() implies {
                    &&& rect_inside(area_rect(#[trigger] new_free_rects@[k]), outer)
                    &&& forall|o: int|
                        0 <= o < obstacles.len() ==> !rects_overlap(
                            area_rect(new_free_rects@[k]),
                            #[trigger] obstacles[o],
                        )
                } by {
                    if k >= prev_len {
                        let parent = area_rect(free_rects@[idx as int]);
                        assert(rect_inside(area_rect(new_free_rects@[k]), parent));
                        assert forall|o: int| 0 <= o < obstacles.len() implies !rects_overlap(
                            area_rect(new_free_rects@[k]),
                            #[trigger] obstacles[o],
                        ) by {
                            lemma_inside_avoids(
                                area_rect(new_free_rects@[k]),
                                parent,
                                obstacles[o],
                            );
                        }
                    }
                }
                assert forall|q: GRect, i: int|
                    #![trigger rect_inside(q, area_rect(free_rects@[i]))]
                    q.w >= 1 && q.h >= 1 && 0 <= i < idx + 1 && rect_inside(
                        q,
                        area_rect(free_rects@[i]),
                    ) && !rects_overlap(q, area_rect(*placed)) implies rect_covered(
                    q,
                    new_free_rects@,
                ) by {
                    if i < idx {
                        lemma_covered_extend(q, prev_rects, new_free_rects@);
                    } else {
                        assert(rect_covered(q, new_free_rects@));
                    }
                }
                assert forall|k: int| 0 <= k < new_free_rects@.len() implies rect_covered(
                    area_rect(#[trigger] new_free_rects@[k]),
                    free_rects@,
                ) by {
                    if k < prev_len {
                        lemma_covered_extend(
                            area_rect(new_free_rects@[k]),
                            prev_rects,
                            new_free_rects@,
                        );
                        assert(rect_covered(area_rect(new_free_rects@[k]), free_rects@));
                    } else {
                        assert(rect_inside(
                            area_rect(new_free_rects@[k]),
                            area_rect(free_rects@[idx as int]),
                        ));
                    }
                }
            }
            idx += 1;
        }
        let ghost split_rects = new_free_rects@;
        let pruned = self.prune_contained_rects(new_free_rects);
        proof {
            assert forall|k: int| 0 <= k < pruned@.len() implies rect_covered(
                area_rect(#[trigger] pruned@[k]),
                free_rects@,
            ) by {
                assert(split_rects.contains(pruned@[k]));
                let j = choose|j: int| 0 <= j < split_rects.len() && split_rects[j] == pruned@[k];
                assert(rect_covered(area_rect(split_rects[j]), free_rects@));
                let m = choose|m: int|
                    0 <= m < free_rects@.len() && rect_inside(
                        area_rect(split_rects[j]),
                        area_rect(#[trigger] free_rects@[m]),
                    );
                assert(rect_inside(area_rect(pruned@[k]), area_rect(free_rects@[m])));
            }
            assert forall|k: int| 0 <= k < pruned@.len() implies {
                &&& !rects_overlap(area_rect(#[trigger] pruned@[k]), area_rect(*placed))
                &&& area_bounded(pruned@[k])
                &&& pruned@[k].width >= 1
                &&& pruned@[k].height >= 1
                &&& rect_inside(area_rect(pruned@[k]), outer)
                &&& forall|o: int|
                    0 <= o < obstacles.len() ==> !rects_overlap(
                        area_rect(pruned@[k]),
                        #[trigger] obstacles[o],
                    )
            } by {
                assert(split_rects.contains(pruned@[k]));
                let j = choose|j: int| 0 <= j < split_rects.len() && split_rects[j] == pruned@[k];
                assert(split_rects[j] == pruned@[k]);
            }
            assert forall|q: GRect| #![trigger rect_covered(q, pruned@)]
                q.w >= 1 && q.h >= 1 && rect_covered(q, free_rects@) && !rects_overlap(
                    q,
                    area_rect(*placed),
                ) implies rect_covered(q, pruned@) by {
                let i = choose|i: int|
                    0 <= i < free_rects@.len() && rect_inside(
                        q,
                        area_rect(#[trigger] free_rects@[i]),
                    );
                assert(rect_covered(q, split_rects));
                let m = choose|m: int|
                    0 <= m < split_rects.len() && rect_inside(
                        q,
                        area_rect(#[trigger] split_rects[m]),
                    );
                assert(rect_covered(area_rect(split_rects[m]), pruned@));
                let k = choose|k: int|
                    0 <= k < pruned@.len() && rect_inside(
                        area_rect(split_rects[m]),
                        area_rect(#[trigger] pruned@[k]),
                    );
                assert(rect_inside(q, area_rect(pruned@[k])));
            }
        }
        pruned
    }

    /// Removes every rectangle another rectangle displaces, that is, one
    /// strictly contained in another or equal to an earlier one, keeping
    /// exactly the maximal free rectangles, each once.
    #[verifier::rlimit(60)]
    pub(crate) fn prune_contained_rects(&self, rects: Vec<UnusedArea>) -> (res: Vec<UnusedArea>)
        requires
            forall|k: int|
                0 <= k < rects@.len() ==> area_bounded(#[trigger] rects@[k]) && rects@[k].width >= 1
                    && rects@[k].height >= 1,
        ensures
            forall|k: int| 0 <= k < res@.len() ==> rects@.contains(#[trigger] res@[k]),
            forall|i: int|
                0 <= i < rects@.len() ==> rect_covered(area_rect(#[trigger] rects@[i]), res@),
            forall|p: int, k: int|
                0 <= p < res@.len() && 0 <= k < res@.len() && p != k ==> !rect_inside(
                    area_rect(#[trigger] res@[k]),
                    area_rect(#[trigger] res@[p]),
                ),
    {
        let mut result: Vec<UnusedArea> = Vec::new();
        let ghost mut kept_idx: Seq<int> = Seq::empty();
        let n = rects.len();
        let mut i: usize = 0;
        while i < n
            invariant
                n == rects@.len(),
                0 <= i <= n,
                forall|k: int|
                    0 <= k < rects@.len() ==> area_bounded(#[trigger] rects@[k])
                        && rects@[k].width >= 1 && rects@[k].height >= 1,
                kept_idx.len() == result@.len(),
                forall|k: int|
                    0 <= k < result@.len() ==> {
                        &&& 0 <= #[trigger] kept_idx[k] < i
                        &&& kept_maximal(rects@, kept_idx[k])
                        &&& result@[k] == rects@[kept_idx[k]]
                    },
                forall|k1: int, k2: int|
                    0 <= k1 < k2 < result@.len() ==> #[trigger] kept_idx[k1] < #[trigger] kept_idx[k2],
                forall|i0: int|
                    0 <= i0 < i && kept_maximal(rects@, i0) ==> result@.contains(
                        #[trigger] rects@[i0],
                    ),
            decreases n - i,
        {
            let mut is_displaced = false;
            let mut j: usize = 0;
            while j < n
                invariant
                    n == rects@.len(),
                    0 <= i < n,
                    0 <= j <= n,
                    forall|k: int|
                        0 <= k < rects@.len() ==> area_bounded(#[trigger] rects@[k])
                            && rects@[k].width >= 1 && rects@[k].height >= 1,
                    is_displaced <==> exists|j0: int|
                        0 <= j0 < j && #[trigger] displaces(rects@, j0, i as int),
                decreases n - j,
            {
                if rects[j].contains(&rects[i]) && (j < i || !rects[i].contains(&rects[j])) {
                    is_displaced = true;
                    proof {
                        assert(displaces(rects@, j as int, i as int));
                    }
                }
                j += 1;
            }
            if !is_displaced {
                let ghost pre_result = result@;
                result.push(rects[i]);
                proof {
                    kept_idx = kept_idx.push(i as int);
                    assert(rects@.contains(rects@[i as int]));
                    assert(kept_maximal(rects@, i as int));
                    assert(result@[result@.len() - 1] == rects@[i as int]);
                    assert forall|i0: int|
                        0 <= i0 < i + 1 && kept_maximal(rects@, i0) implies result@.contains(
                        #[trigger] rects@[i0],
                    ) by {
                        if i0 == i {
                            assert(result@[result@.len() - 1] == rects@[i0]);
                        } else {
                            assert(pre_result.contains(rects@[i0]));
                            let k0 = choose|k0: int|
                                0 <= k0 < pre_result.len() && pre_result[k0] == rects@[i0];
                            assert(result@[k0] == rects@[i0]);
                        }
                    }
                }
            } else {
                proof {
                    assert(!kept_maximal(rects@, i as int));
                }
            }
            i += 1;
        }
        proof {
            assert forall|i0: int| 0 <= i0 < rects@.len() implies rect_covered(
                area_rect(#[trigger] rects@[i0]),
                result@,
            ) by {
                lemma_keeper_exists(rects@, i0);
                let j = choose|j: int|
                    0 <= j < rects@.len() && kept_maximal(rects@, j) && rect_inside(
                        area_rect(rects@[i0]),
                        area_rect(#[trigger] rects@[j]),
                    );
                assert(result@.contains(rects@[j]));
                let k = choose|k: int| 0 <= k < result@.len() && result@[k] == rects@[j];
                assert(rect_inside(area_rect(rects@[i0]), area_rect(result@[k])));
            }
            assert forall|k: int| 0 <= k < result@.len() implies rects@.contains(
                #[trigger] result@[k],
            ) by {
                assert(result@[k] == rects@[kept_idx[k]]);
            }
            assert forall|p: int, k: int|
                0 <= p < result@.len() && 0 <= k < result@.len() && p != k implies !rect_inside(
                area_rect(#[trigger] result@[k]),
                area_rect(#[trigger] result@[p]),
            ) by {
                let ip = kept_idx[p];
                let ik = kept_idx[k];
                assert(ip != ik);
                if rect_inside(area_rect(result@[k]), area_rect(result@[p])) {
                    if rect_inside(area_rect(result@[p]), area_rect(result@[k])) {
                        // Mutual containment: the rectangles are equal and
                        // the later kept index would have been displaced.
                        if ip < ik {
                            assert(displaces(rects@, ip, ik));
                            assert(!kept_maximal(rects@, ik));
                        } else {
                            assert(displaces(rects@, ik, ip));
                            assert(!kept_maximal(rects@, ip));
                        }
                    } else {
                        assert(displaces(rects@, ip, ik));
                        assert(!kept_maximal(rects@, ik));
                    }
                    assert(false);
                }
            }
        }
        result
    }

    /// Returns every maximal rectangle of space on the panel that stays
    /// clear of the kerf-expanded rectangle of every placement; every box
    /// of entirely free space lies inside one of them.
    ///
    /// With exact integer coordinates the residual strips always keep
    /// positive dimensions, so no degenerate rectangles need discarding.
    pub fn find_unused_areas(&self, layout: &PanelLayout) -> (areas: Vec<UnusedArea>)
        requires
            self.wf(),
            layout_bounded(*layout),
        ensures
            forall|k: int|
                0 <= k < areas@.len() ==> {
                    &&& area_bounded(#[trigger] areas@[k])
                    &&& areas@[k].width >= 1
                    &&& areas@[k].height >= 1
                    &&& rect_inside(area_rect(areas@[k]), usable_rect(*layout))
                },
            forall|k: int, i: int|
                0 <= k < areas@.len() && 0 <= i < layout.placements@.len() ==> !rects_overlap(
                    area_rect(#[trigger] areas@[k]),
                    expanded_rect(placement_rect(#[trigger] layout.placements@[i]), self.kerf()),
                ),
            forall|q: GRect|
                #![trigger rect_covered(q, areas@)]
                q.w >= 1 && q.h >= 1 && rect_inside(q, usable_rect(*layout)) && (forall|i: int|
                    0 <= i < layout.placements@.len() ==> !rects_overlap(
                        q,
                        expanded_rect(
                            placement_rect(#[trigger] layout.placements@[i]),
                            self.kerf(),
                        ),
                    )) ==> rect_covered(q, areas@),
            forall|p: int, k: int|
                0 <= p < areas@.len() && 0 <= k < areas@.len() && p != k ==> !rect_inside(
                    area_rect(#[trigger] areas@[k]),
                    area_rect(#[trigger] areas@[p]),
                ),
            (layout.width - 2 * layout.trimming < 1 || layout.height - 2 * layout.trimming < 1)
                ==> areas@.len() == 0,
            (layout.placements@.len() == 0 && layout.width - 2 * layout.trimming >= 1
                && layout.height - 2 * layout.trimming >= 1) ==> (areas@.len() == 1 && area_rect(
                areas@[0],
            ) == usable_rect(*layout)),
    {
        let usable_width = layout.width - layout.trimming * 2;
        let usable_height = layout.height - layout.trimming * 2;
        if usable_width <= 0 || usable_height <= 0 {
            let empty: Vec<UnusedArea> = Vec::new();
            proof {
                assert forall|q: GRect| #![trigger rect_covered(q, empty@)]
                    q.w >= 1 && q.h >= 1 && rect_inside(q, usable_rect(*layout)) && (forall|i: int|
                        0 <= i < layout.placements@.len() ==> !rects_overlap(
                            q,
                            expanded_rect(
                                placement_rect(#[trigger] layout.placements@[i]),
                                self.kerf(),
                            ),
                        )) implies rect_covered(q, empty@) by {
                    assert(false);
                }
            }
            return empty;
        }
        let mut free_rects: Vec<UnusedArea> = Vec::new();
        free_rects.push(
            UnusedArea {
                x: layout.trimming,
                y: layout.trimming,
                width: usable_width,
                height: usable_height,
            },
        );
        proof {
            assert(area_rect(free_rects@[0]) == usable_rect(*layout));
        }
        let n = layout.placements.len();
        let mut p_idx: usize = 0;
        while p_idx < n
            invariant
                self.wf(),
                layout_bounded(*layout),
                n == layout.placements@.len(),
                0 <= p_idx <= n,
                usable_width == layout.width - layout.trimming * 2,
                usable_height == layout.height - layout.trimming * 2,
                usable_width >= 1,
                usable_height >= 1,
                forall|k: int|
                    0 <= k < free_rects@.len() ==> {
                        &&& area_bounded(#[trigger] free_rects@[k])
                        &&& free_rects@[k].width >= 1
                        &&& free_rects@[k].height >= 1
                        &&& rect_inside(area_rect(free_rects@[k]), usable_rect(*layout))
                    },
                forall|k: int, i: int|
                    0 <= k < free_rects@.len() && 0 <= i < p_idx ==> !rects_overlap(
                        area_rect(#[trigger] free_rects@[k]),
                        expanded_rect(
                            placement_rect(#[trigger] layout.placements@[i]),
                            self.kerf(),
                        ),
                    ),
                forall|q: GRect|
                    #![trigger rect_covered(q, free_rects@)]
                    q.w >= 1 && q.h >= 1 && rect_inside(q, usable_rect(*layout)) && (forall|i: int|
                        0 <= i < p_idx ==> !rects_overlap(
                            q,
                            expanded_rect(
                                placement_rect(#[trigger] layout.placements@[i]),
                                self.kerf(),
                            ),
                        )) ==> rect_covered(q, free_rects@),
                forall|p: int, k: int|
                    0 <= p < free_rects@.len() && 0 <= k < free_rects@.len() && p != k
                        ==> !rect_inside(
                        area_rect(#[trigger] free_rects@[k]),
                        area_rect(#[trigger] free_rects@[p]),
                    ),
                n > 0 || (free_rects@.len() == 1 && area_rect(free_rects@[0]) == usable_rect(
                    *layout,
                )),
            decreases n - p_idx,
        {
            let placement = &layout.placements[p_idx];
            let placed = UnusedArea {
                x: placement.x,
                y: placement.y,
                width: placement.width + self.request.cut_width,
                height: placement.height + self.request.cut_width,
            };
            assert(area_rect(placed) == expanded_rect(
                placement_rect(layout.placements@[p_idx as int]),
                self.kerf(),
            ));
            let ghost obstacles = Seq::new(
                p_idx as nat,
                |i: int| expanded_rect(placement_rect(layout.placements@[i]), self.kerf()),
            );
            let ghost before_rects = free_rects@;
            free_rects = self.split_free_rects_around_placement(
                free_rects,
                &placed,
                Ghost(usable_rect(*layout)),
                Ghost(obstacles),
            );
            proof {
                assert forall|k: int, i: int|
                    0 <= k < free_rects@.len() && 0 <= i < p_idx + 1 implies !rects_overlap(
                    area_rect(#[trigger] free_rects@[k]),
                    expanded_rect(placement_rect(#[trigger] layout.placements@[i]), self.kerf()),
                ) by {
                    if i < p_idx {
                        assert(obstacles[i] == expanded_rect(
                            placement_rect(layout.placements@[i]),
                            self.kerf(),
                        ));
                        assert(!rects_overlap(area_rect(free_rects@[k]), obstacles[i]));
                    } else {
                        assert(!rects_overlap(area_rect(free_rects@[k]), area_rect(placed)));
                    }
                }
                assert forall|q: GRect| #![trigger rect_covered(q, free_rects@)]
                    q.w >= 1 && q.h >= 1 && rect_inside(q, usable_rect(*layout)) && (forall|i: int|
                        0 <= i < p_idx + 1 ==> !rects_overlap(
                            q,
                            expanded_rect(
                                placement_rect(#[trigger] layout.placements@[i]),
                                self.kerf(),
                            ),
                        )) implies rect_covered(q, free_rects@) by {
                    assert(!rects_overlap(
                        q,
                        expanded_rect(
                            placement_rect(layout.placements@[p_idx as int]),
                            self.kerf(),
                        ),
                    ));
                    assert(rect_covered(q, before_rects));
                    assert(!rects_overlap(q, area_rect(placed)));
                }
            }
            p_idx += 1;
        }
        free_rects
    }
}

} // verus!

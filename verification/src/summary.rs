//! Aggregation: panels per type, utilization and waste statistics, and the
//! reusable-remnant accounting.

use vstd::prelude::*;

use crate::geom::{
    expanded_rect, layout_wf, placement_rect, rect_covered, rect_inside, rects_overlap,
    usable_rect, GRect,
};
use crate::output::spec_area;
use crate::model::count_type_prefix;
use crate::optimizer::Optimizer;
use crate::types::{PanelCount, PanelLayout, Placement, Summary, MAX_DIM, MAX_TOTAL_ITEMS};

verus! {

/// The panel still has a free box at least 10 units on each side whose
/// area reaches the threshold: clear of every kerf-expanded placement and
/// inside the usable area.
pub open spec fn has_reusable_box(l: PanelLayout, ms: int, kerf: int) -> bool {
    exists|q: GRect|
        #![trigger rect_inside(q, usable_rect(l))]
        q.w >= 10 && q.h >= 10 && q.w * q.h >= ms && rect_inside(q, usable_rect(l)) && (
        forall|pi: int|
            0 <= pi < l.placements@.len() ==> !rects_overlap(
                q,
                expanded_rect(placement_rect(#[trigger] l.placements@[pi]), kerf),
            ))
}

/// Sum of the panel areas of the layouts.
pub open spec fn sum_panel_area(ls: Seq<PanelLayout>) -> int
    decreases ls.len(),
{
    if ls.len() == 0 {
        0
    } else {
        sum_panel_area(ls.drop_last()) + ls.last().width * ls.last().height
    }
}

/// Sum of the areas of a placement list.
pub open spec fn sum_placement_area(ps: Seq<Placement>) -> int
    decreases ps.len(),
{
    if ps.len() == 0 {
        0
    } else {
        sum_placement_area(ps.drop_last()) + ps.last().width * ps.last().height
    }
}

/// Sum of the placed areas across all layouts.
pub open spec fn sum_used_area(ls: Seq<PanelLayout>) -> int
    decreases ls.len(),
{
    if ls.len() == 0 {
        0
    } else {
        sum_used_area(ls.drop_last()) + sum_placement_area(ls.last().placements@)
    }
}

/// Number of placements across all layouts.
pub open spec fn total_placements(ls: Seq<PanelLayout>) -> int
    decreases ls.len(),
{
    if ls.len() == 0 {
        0
    } else {
        total_placements(ls.drop_last()) + ls.last().placements@.len()
    }
}

/// Share of `part` in `total`, in hundredths of a percent, rounded down;
/// zero when there is no area at all. A negative part counts as zero.
pub open spec fn spec_percentage(part: int, total: int) -> int {
    if total > 0 {
        ((if part > 0 {
            part
        } else {
            0
        }) * 10000) / total
    } else {
        0
    }
}

/// Sum of the per-type panel counts.
pub open spec fn sum_counts(cs: Seq<PanelCount>) -> int
    decreases cs.len(),
{
    if cs.len() == 0 {
        0
    } else {
        sum_counts(cs.drop_last()) + cs.last().count as int
    }
}

/// Replacing one entry changes the sum by the difference of its count.
proof fn lemma_sum_counts_update(cs: Seq<PanelCount>, idx: int, e: PanelCount)
    requires
        0 <= idx < cs.len(),
    ensures
        sum_counts(cs.update(idx, e)) == sum_counts(cs) - cs[idx].count + e.count,
    decreases cs.len(),
{
    let cs2 = cs.update(idx, e);
    if idx == cs.len() - 1 {
        assert(cs2.drop_last() =~= cs.drop_last());
    } else {
        assert(cs2.drop_last() =~= cs.drop_last().update(idx, e));
        assert(cs2.last() == cs.last());
        lemma_sum_counts_update(cs.drop_last(), idx, e);
    }
}

/// A type that occurs nowhere in the first `n` layouts has count zero.
proof fn lemma_count_prefix_zero(ls: Seq<PanelLayout>, n: int, t: Seq<char>)
    requires
        0 <= n <= ls.len(),
        forall|l: int| 0 <= l < n ==> (#[trigger] ls[l]).panel_type_id@ != t,
    ensures
        count_type_prefix(ls, n, t) == 0,
    decreases n,
{
    if n > 0 {
        lemma_count_prefix_zero(ls, n - 1, t);
    }
}

/// There is no negative number of placements.
pub proof fn lemma_total_placements_nonneg(ls: Seq<PanelLayout>)
    ensures
        total_placements(ls) >= 0,
    decreases ls.len(),
{
    if ls.len() > 0 {
        lemma_total_placements_nonneg(ls.drop_last());
    }
}

/// No single layout holds more placements than all layouts together.
pub proof fn lemma_total_placements_elem(ls: Seq<PanelLayout>, i: int)
    requires
        0 <= i < ls.len(),
    ensures
        ls[i].placements@.len() <= total_placements(ls),
    decreases ls.len(),
{
    if i == ls.len() - 1 {
        lemma_total_placements_nonneg(ls.drop_last());
    } else {
        lemma_total_placements_elem(ls.drop_last(), i);
    }
}

/// Replacing one layout by a version with one more placement raises the
/// total by one.
pub proof fn lemma_total_placements_update(ls: Seq<PanelLayout>, idx: int, l2: PanelLayout)
    requires
        0 <= idx < ls.len(),
        l2.placements@.len() == ls[idx].placements@.len() + 1,
    ensures
        total_placements(ls.update(idx, l2)) == total_placements(ls) + 1,
    decreases ls.len(),
{
    let ls2 = ls.update(idx, l2);
    if idx == ls.len() - 1 {
        assert(ls2.drop_last() =~= ls.drop_last());
    } else {
        assert(ls2.drop_last() =~= ls.drop_last().update(idx, l2));
        assert(ls2.last() == ls.last());
        lemma_total_placements_update(ls.drop_last(), idx, l2);
    }
}

/// Replacing one layout changes the used area by the difference of its
/// placed areas.
pub proof fn lemma_sum_used_update(ls: Seq<PanelLayout>, idx: int, l2: PanelLayout)
    requires
        0 <= idx < ls.len(),
    ensures
        sum_used_area(ls.update(idx, l2)) == sum_used_area(ls) - sum_placement_area(
            ls[idx].placements@,
        ) + sum_placement_area(l2.placements@),
    decreases ls.len(),
{
    let ls2 = ls.update(idx, l2);
    if idx == ls.len() - 1 {
        assert(ls2.drop_last() =~= ls.drop_last());
    } else {
        assert(ls2.drop_last() =~= ls.drop_last().update(idx, l2));
        assert(ls2.last() == ls.last());
        lemma_sum_used_update(ls.drop_last(), idx, l2);
    }
}

/// Lists with pointwise equal panel dimensions have the same panel area.
pub proof fn lemma_sum_panel_pointwise(ls1: Seq<PanelLayout>, ls2: Seq<PanelLayout>)
    requires
        ls1.len() == ls2.len(),
        forall|i: int|
            0 <= i < ls1.len() ==> (#[trigger] ls1[i]).width == ls2[i].width && ls1[i].height
                == ls2[i].height,
    ensures
        sum_panel_area(ls1) == sum_panel_area(ls2),
    decreases ls1.len(),
{
    if ls1.len() > 0 {
        lemma_sum_panel_pointwise(ls1.drop_last(), ls2.drop_last());
    }
}

/// Lists with pointwise equal placements have the same used area.
pub proof fn lemma_sum_used_pointwise(ls1: Seq<PanelLayout>, ls2: Seq<PanelLayout>)
    requires
        ls1.len() == ls2.len(),
        forall|i: int| 0 <= i < ls1.len() ==> (#[trigger] ls1[i]).placements@ == (
        #[trigger] ls2[i]).placements@,
    ensures
        sum_used_area(ls1) == sum_used_area(ls2),
    decreases ls1.len(),
{
    if ls1.len() > 0 {
        lemma_sum_used_pointwise(ls1.drop_last(), ls2.drop_last());
    }
}

/// Appending one placement raises the placed area by that placement's.
pub proof fn lemma_sum_placement_push(ps: Seq<Placement>, p: Placement)
    ensures
        sum_placement_area(ps.push(p)) == sum_placement_area(ps) + p.width * p.height,
{
    assert(ps.push(p).drop_last() =~= ps);
    assert(ps.push(p).last() == p);
}

/// A prefix never counts more placements than the whole.
proof fn lemma_total_placements_take_le(ls: Seq<PanelLayout>, n: int)
    requires
        0 <= n <= ls.len(),
    ensures
        total_placements(ls.take(n)) <= total_placements(ls),
    decreases ls.len() - n,
{
    if n == ls.len() {
        assert(ls.take(n) =~= ls);
    } else {
        lemma_total_placements_take_le(ls, n + 1);
        assert(ls.take(n + 1).drop_last() =~= ls.take(n));
    }
}

impl Optimizer {
    /// How many panels of each type the plan consumes: one entry per type
    /// that occurs, with the exact count, summing to the number of layouts.
    pub(crate) fn count_panels(&self, layouts: &Vec<PanelLayout>) -> (r: Vec<PanelCount>)
        requires
            layouts@.len() <= MAX_TOTAL_ITEMS,
        ensures
            forall|i: int, j: int|
                0 <= i < j < r@.len() ==> (#[trigger] r@[i]).panel_type_id@ != (
                #[trigger] r@[j]).panel_type_id@,
            forall|e: int|
                0 <= e < r@.len() ==> (#[trigger] r@[e]).count as int == count_type_prefix(
                    layouts@,
                    layouts@.len() as int,
                    r@[e].panel_type_id@,
                ) && r@[e].count >= 1,
            forall|l: int|
                #![trigger layouts@[l]]
                0 <= l < layouts@.len() ==> exists|e: int|
                    0 <= e < r@.len() && (#[trigger] r@[e]).panel_type_id@
                        == layouts@[l].panel_type_id@,
            sum_counts(r@) == layouts@.len(),
    {
        let mut counts: Vec<PanelCount> = Vec::new();
        let n = layouts.len();
        let mut i: usize = 0;
        while i < n
            invariant
                n == layouts@.len(),
                n <= MAX_TOTAL_ITEMS,
                0 <= i <= n,
                forall|p: int, q: int|
                    0 <= p < q < counts@.len() ==> (#[trigger] counts@[p]).panel_type_id@ != (
                    #[trigger] counts@[q]).panel_type_id@,
                forall|e: int|
                    0 <= e < counts@.len() ==> (#[trigger] counts@[e]).count as int
                        == count_type_prefix(layouts@, i as int, counts@[e].panel_type_id@)
                        && counts@[e].count >= 1,
                forall|l: int|
                    #![trigger layouts@[l]]
                    0 <= l < i ==> exists|e: int|
                        0 <= e < counts@.len() && (#[trigger] counts@[e]).panel_type_id@
                            == layouts@[l].panel_type_id@,
                sum_counts(counts@) == i,
            decreases n - i,
        {
            let mut found: Option<usize> = None;
            let m = counts.len();
            let mut j: usize = 0;
            while j < m
                invariant
                    m == counts@.len(),
                    0 <= j <= m,
                    0 <= i < n,
                    n == layouts@.len(),
                    found matches Some(f) ==> 0 <= (f as int) < m && counts@[f as int].panel_type_id@
                        == layouts@[i as int].panel_type_id@,
                    found is None ==> forall|q: int|
                        0 <= q < j ==> (#[trigger] counts@[q]).panel_type_id@
                            != layouts@[i as int].panel_type_id@,
                decreases m - j,
            {
                if counts[j].panel_type_id == layouts[i].panel_type_id {
                    found = Some(j);
                }
                j += 1;
            }
            let ghost old_counts = counts@;
            match found {
                Some(f) => {
                    let mut entry = counts.remove(f);
                    proof {
                        assert(entry.count as int == count_type_prefix(
                            layouts@,
                            i as int,
                            entry.panel_type_id@,
                        ));
                        assert(count_type_prefix(layouts@, i as int, entry.panel_type_id@)
                            <= i) by {
                            crate::model::lemma_count_prefix_monotonic(
                                layouts@,
                                0,
                                i as int,
                                entry.panel_type_id@,
                            );
                        }
                    }
                    entry.count = entry.count + 1;
                    counts.insert(f, entry);
                    proof {
                        assert(counts@ =~= old_counts.update(f as int, entry));
                        lemma_sum_counts_update(old_counts, f as int, entry);
                        assert forall|e: int| 0 <= e < counts@.len() implies (
                        #[trigger] counts@[e]).count as int == count_type_prefix(
                            layouts@,
                            i + 1,
                            counts@[e].panel_type_id@,
                        ) && counts@[e].count >= 1 by {
                            if e != f {
                                assert(counts@[e] == old_counts[e]);
                                assert(counts@[e].panel_type_id@
                                    != layouts@[i as int].panel_type_id@);
                            }
                        }
                        assert forall|l: int| #![trigger layouts@[l]] 0 <= l < i + 1
                            implies exists|e: int|
                            0 <= e < counts@.len() && (#[trigger] counts@[e]).panel_type_id@
                                == layouts@[l].panel_type_id@ by {
                            if l < i {
                                let e0 = choose|e: int|
                                    0 <= e < old_counts.len() && (
                                    #[trigger] old_counts[e]).panel_type_id@
                                        == layouts@[l].panel_type_id@;
                                if e0 == f {
                                    assert(counts@[f as int].panel_type_id@
                                        == layouts@[l].panel_type_id@);
                                } else {
                                    assert(counts@[e0].panel_type_id@
                                        == layouts@[l].panel_type_id@);
                                }
                            } else {
                                assert(counts@[f as int].panel_type_id@
                                    == layouts@[l].panel_type_id@);
                            }
                        }
                    }
                },
                None => {
                    let entry = PanelCount {
                        panel_type_id: layouts[i].panel_type_id.clone(),
                        count: 1,
                    };
                    counts.push(entry);
                    proof {
                        assert(counts@.drop_last() =~= old_counts);
                        assert(counts@.last() == entry);
                        assert(sum_counts(counts@) == sum_counts(old_counts) + 1);
                        assert forall|l: int| 0 <= l < i implies (
                        #[trigger] layouts@[l]).panel_type_id@
                            != layouts@[i as int].panel_type_id@ by {
                            let e0 = choose|e: int|
                                0 <= e < old_counts.len() && (
                                #[trigger] old_counts[e]).panel_type_id@
                                    == layouts@[l].panel_type_id@;
                        }
                        lemma_count_prefix_zero(
                            layouts@,
                            i as int,
                            layouts@[i as int].panel_type_id@,
                        );
                        assert forall|e: int| 0 <= e < counts@.len() implies (
                        #[trigger] counts@[e]).count as int == count_type_prefix(
                            layouts@,
                            i + 1,
                            counts@[e].panel_type_id@,
                        ) && counts@[e].count >= 1 by {
                            if e < old_counts.len() {
                                assert(counts@[e] == old_counts[e]);
                                assert(counts@[e].panel_type_id@
                                    != layouts@[i as int].panel_type_id@);
                            }
                        }
                        assert forall|l: int| #![trigger layouts@[l]] 0 <= l < i + 1
                            implies exists|e: int|
                            0 <= e < counts@.len() && (#[trigger] counts@[e]).panel_type_id@
                                == layouts@[l].panel_type_id@ by {
                            if l < i {
                                let e0 = choose|e: int|
                                    0 <= e < old_counts.len() && (
                                    #[trigger] old_counts[e]).panel_type_id@
                                        == layouts@[l].panel_type_id@;
                                assert(counts@[e0].panel_type_id@ == layouts@[l].panel_type_id@);
                            } else {
                                assert(counts@[counts@.len() - 1].panel_type_id@
                                    == layouts@[l].panel_type_id@);
                            }
                        }
                    }
                },
            }
            i += 1;
        }
        proof {
            assert forall|e: int| 0 <= e < counts@.len() implies (
            #[trigger] counts@[e]).count as int == count_type_prefix(
                layouts@,
                layouts@.len() as int,
                counts@[e].panel_type_id@,
            ) && counts@[e].count >= 1 by {}
        }
        counts
    }

    /// Computes utilization, waste, and optional remnant statistics.
    ///
    /// The total and used areas and their difference are exact; the
    /// percentages are in hundredths of a percent, rounded down. The three
    /// remnant fields are present exactly when the request set a minimum
    /// reusable remnant size; the reusable area never exceeds the waste,
    /// and the actual waste is the difference, never negative.
    pub(crate) fn calculate_summary(&self, layouts: &Vec<PanelLayout>) -> (r: Summary)
        requires
            self.wf(),
            layouts@.len() <= MAX_TOTAL_ITEMS,
            total_placements(layouts@) <= 2 * MAX_TOTAL_ITEMS,
            forall|i: int| 0 <= i < layouts@.len() ==> layout_wf(#[trigger] layouts@[i], self.kerf()),
        ensures
            r.total_panels as int == layouts@.len(),
            r.total_area == sum_panel_area(layouts@),
            r.used_area == sum_used_area(layouts@),
            r.waste_area == r.total_area - r.used_area,
            r.waste_percentage == spec_percentage(r.waste_area as int, r.total_area as int),
            r.reusable_remnant_area is Some <==> self.request.min_reusable_remnant_size is Some,
            r.actual_waste_area is Some <==> self.request.min_reusable_remnant_size is Some,
            r.actual_waste_percentage is Some <==> self.request.min_reusable_remnant_size is Some,
            match r.reusable_remnant_area {
                Some(v) => {
                    &&& v <= r.waste_area
                    &&& (r.waste_area >= 0 ==> v >= 0)
                    &&& r.actual_waste_area matches Some(a) && a == r.waste_area - v && a >= 0
                    &&& r.actual_waste_percentage matches Some(p) && p == spec_percentage(
                        r.waste_area - v,
                        r.total_area as int,
                    )
                },
                None => true,
            },
            match self.request.min_reusable_remnant_size {
                Some(ms) => (exists|i: int|
                    0 <= i < layouts@.len() && has_reusable_box(
                        #[trigger] layouts@[i],
                        ms as int,
                        self.kerf(),
                    )) ==> (r.reusable_remnant_area matches Some(v) && (v >= ms || v
                    == r.waste_area)),
                None => true,
            },
    {
        let n = layouts.len();
        let total_panels: u32 = n as u32;

        let mut total_area: i64 = 0;
        let mut i: usize = 0;
        while i < n
            invariant
                n == layouts@.len(),
                n <= MAX_TOTAL_ITEMS,
                0 <= i <= n,
                forall|k: int|
                    0 <= k < layouts@.len() ==> layout_wf(#[trigger] layouts@[k], self.kerf()),
                total_area == sum_panel_area(layouts@.take(i as int)),
                0 <= total_area <= i * 1_000_000_000_000,
            decreases n - i,
        {
            let l = &layouts[i];
            proof {
                assert(1 <= l.width * l.height <= 1_000_000_000_000) by (nonlinear_arith)
                    requires
                        1 <= l.width <= MAX_DIM,
                        1 <= l.height <= MAX_DIM,
                ;
                assert(layouts@.take(i + 1).drop_last() =~= layouts@.take(i as int));
                assert(layouts@.take(i + 1).last() == layouts@[i as int]);
            }
            total_area += l.width * l.height;
            i += 1;
        }
        proof {
            assert(layouts@.take(n as int) =~= layouts@);
        }

        let mut used_area: i64 = 0;
        proof {
            lemma_total_placements_take_le(layouts@, 0);
            lemma_total_placements_nonneg(layouts@.take(0));
        }
        let mut i: usize = 0;
        while i < n
            invariant
                self.wf(),
                n == layouts@.len(),
                n <= MAX_TOTAL_ITEMS,
                0 <= i <= n,
                total_placements(layouts@) <= 2 * MAX_TOTAL_ITEMS,
                forall|k: int|
                    0 <= k < layouts@.len() ==> layout_wf(#[trigger] layouts@[k], self.kerf()),
                used_area == sum_used_area(layouts@.take(i as int)),
                0 <= used_area <= total_placements(layouts@.take(i as int)) * 1_000_000_000_000,
                total_placements(layouts@.take(i as int)) <= total_placements(layouts@),
            decreases n - i,
        {
            let l = &layouts[i];
            proof {
                lemma_total_placements_elem(layouts@, i as int);
            }
            let m = l.placements.len();
            let mut k: usize = 0;
            let mut layout_used: i64 = 0;
            while k < m
                invariant
                    0 <= i < n,
                    n == layouts@.len(),
                    l == &layouts@[i as int],
                    m == l.placements@.len(),
                    m <= 2 * MAX_TOTAL_ITEMS,
                    0 <= k <= m,
                    forall|q: int|
                        0 <= q < layouts@.len() ==> layout_wf(#[trigger] layouts@[q], self.kerf()),
                    layout_used == sum_placement_area(l.placements@.take(k as int)),
                    0 <= layout_used <= k * 1_000_000_000_000,
                decreases m - k,
            {
                let p = &l.placements[k];
                proof {
                    assert(crate::geom::placement_ok(l.placements@[k as int], layouts@[i as int]));
                    assert(1 <= p.width * p.height <= 1_000_000_000_000) by (nonlinear_arith)
                        requires
                            1 <= p.width <= MAX_DIM,
                            1 <= p.height <= MAX_DIM,
                    ;
                    assert(l.placements@.take(k + 1).drop_last() =~= l.placements@.take(k as int));
                    assert(l.placements@.take(k + 1).last() == l.placements@[k as int]);
                }
                layout_used += p.width * p.height;
                k += 1;
            }
            proof {
                assert(l.placements@.take(m as int) =~= l.placements@);
                assert(layouts@.take(i + 1).drop_last() =~= layouts@.take(i as int));
                assert(layouts@.take(i + 1).last() == layouts@[i as int]);
                lemma_total_placements_take_le(layouts@, i + 1);
                assert(total_placements(layouts@.take(i + 1)) == total_placements(
                    layouts@.take(i as int),
                ) + m);
                assert(used_area + layout_used <= total_placements(layouts@.take(i + 1))
                    * 1_000_000_000_000) by (nonlinear_arith)
                    requires
                        0 <= used_area,
                        0 <= layout_used <= m * 1_000_000_000_000,
                        used_area <= total_placements(layouts@.take(i as int))
                            * 1_000_000_000_000,
                        total_placements(layouts@.take(i + 1)) == total_placements(
                            layouts@.take(i as int),
                        ) + m,
                        0 <= m,
                        0 <= total_placements(layouts@.take(i as int)),
                ;
                assert(total_placements(layouts@.take(i + 1)) * 1_000_000_000_000 <= 2
                    * MAX_TOTAL_ITEMS * 1_000_000_000_000) by (nonlinear_arith)
                    requires
                        total_placements(layouts@.take(i + 1)) <= 2 * MAX_TOTAL_ITEMS,
                        0 <= total_placements(layouts@.take(i + 1)),
                ;
            }
            used_area += layout_used;
            i += 1;
        }
        proof {
            assert(layouts@.take(n as int) =~= layouts@);
        }

        let waste_area = total_area - used_area;
        let waste_percentage = percentage_of(waste_area, total_area);

        let (reusable_remnant_area, actual_waste_area, actual_waste_percentage) = match self
            .request
            .min_reusable_remnant_size {
            Some(min_size) => {
                let mut reusable: i64 = 0;
                let waste_floor: i64 = if waste_area > 0 {
                    waste_area
                } else {
                    0
                };
                let mut i: usize = 0;
                while i < n
                    invariant
                        self.wf(),
                        n == layouts@.len(),
                        0 <= i <= n,
                        forall|k: int|
                            0 <= k < layouts@.len() ==> layout_wf(
                                #[trigger] layouts@[k],
                                self.kerf(),
                            ),
                        0 <= reusable <= waste_floor,
                        0 <= waste_floor <= 4_000_000_000_000_000_000,
                        self.request.min_reusable_remnant_size == Some(min_size),
                        0 <= min_size,
                        (exists|i0: int|
                            0 <= i0 < i && has_reusable_box(
                                #[trigger] layouts@[i0],
                                min_size as int,
                                self.kerf(),
                            )) ==> (reusable >= min_size || reusable == waste_floor),
                    decreases n - i,
                {
                    let l = &layouts[i];
                    let unused_areas = self.compute_output_unused_areas(l);
                    let mut accepted: Vec<crate::types::UnusedArea> = Vec::new();
                    let m = unused_areas.len();
                    let mut k: usize = 0;
                    while k < m
                        invariant
                            m == unused_areas@.len(),
                            0 <= k <= m,
                            forall|q: int|
                                0 <= q < unused_areas@.len() ==> crate::geom::area_bounded(
                                    #[trigger] unused_areas@[q],
                                ),
                            forall|q: int|
                                0 <= q < accepted@.len() ==> crate::geom::area_bounded(
                                    #[trigger] accepted@[q],
                                ),
                            0 <= reusable <= waste_floor,
                            0 <= waste_floor <= 4_000_000_000_000_000_000,
                            0 <= min_size,
                            accepted@.len() >= 1 ==> (reusable >= min_size || reusable == waste_floor),
                            (exists|k0: int|
                                0 <= k0 < k && spec_area(#[trigger] unused_areas@[k0])
                                    >= min_size) ==> (reusable >= min_size || reusable == waste_floor),
                            (exists|i0: int|
                                0 <= i0 < i && has_reusable_box(
                                    #[trigger] layouts@[i0],
                                    min_size as int,
                                    self.kerf(),
                                )) ==> (reusable >= min_size || reusable == waste_floor),
                        decreases m - k,
                    {
                        let area = unused_areas[k];
                        proof {
                            assert(0 <= area.width * area.height <= 16_000_000_000_000)
                                by (nonlinear_arith)
                                requires
                                    0 <= area.width <= 4 * MAX_DIM,
                                    0 <= area.height <= 4 * MAX_DIM,
                            ;
                        }
                        let area_size: i64 = area.width * area.height;
                        if area_size >= min_size {
                            let mut overlaps_accepted = false;
                            let a_len = accepted.len();
                            let mut q: usize = 0;
                            while q < a_len
                                invariant
                                    a_len == accepted@.len(),
                                    0 <= q <= a_len,
                                    crate::geom::area_bounded(area),
                                    forall|w: int|
                                        0 <= w < accepted@.len() ==> crate::geom::area_bounded(
                                            #[trigger] accepted@[w],
                                        ),
                                    overlaps_accepted ==> a_len >= 1,
                                decreases a_len - q,
                            {
                                if accepted[q].overlaps(&area) {
                                    overlaps_accepted = true;
                                }
                                q += 1;
                            }
                            if !overlaps_accepted {
                                accepted.push(area);
                                // Once the waste is covered, further
                                // remnants cannot raise the clamped total.
                                if reusable < waste_floor {
                                    if area_size >= waste_floor - reusable {
                                        reusable = waste_floor;
                                    } else {
                                        reusable += area_size;
                                    }
                                }
                            }
                            proof {
                                assert(reusable >= min_size || reusable == waste_floor);
                            }
                        }
                        proof {
                            assert forall|k0: int|
                                0 <= k0 < k + 1 && spec_area(#[trigger] unused_areas@[k0])
                                    >= min_size implies (reusable >= min_size || reusable
                                == waste_floor) by {}
                        }
                        k += 1;
                    }
                    proof {
                        if has_reusable_box(layouts@[i as int], min_size as int, self.kerf()) {
                            let q = choose|q: GRect|
                                #![trigger rect_inside(q, usable_rect(layouts@[i as int]))]
                                q.w >= 10 && q.h >= 10 && q.w * q.h >= min_size && rect_inside(
                                    q,
                                    usable_rect(layouts@[i as int]),
                                ) && (forall|pi: int|
                                    0 <= pi < layouts@[i as int].placements@.len()
                                        ==> !rects_overlap(
                                        q,
                                        expanded_rect(
                                            placement_rect(
                                                #[trigger] layouts@[i as int].placements@[pi],
                                            ),
                                            self.kerf(),
                                        ),
                                    ));
                            assert(rect_covered(q, unused_areas@));
                            let rr = choose|rr: int|
                                0 <= rr < unused_areas@.len() && rect_inside(
                                    q,
                                    crate::geom::area_rect(#[trigger] unused_areas@[rr]),
                                );
                            assert(spec_area(unused_areas@[rr]) >= min_size) by (nonlinear_arith)
                                requires
                                    10 <= q.w <= unused_areas@[rr].width,
                                    10 <= q.h <= unused_areas@[rr].height,
                                    q.w * q.h >= min_size,
                            ;
                            assert((reusable >= min_size || reusable == waste_floor));
                        }
                        assert forall|i0: int|
                            0 <= i0 < i + 1 && has_reusable_box(
                                #[trigger] layouts@[i0],
                                min_size as int,
                                self.kerf(),
                            ) implies (reusable >= min_size || reusable == waste_floor) by {}
                    }
                    i += 1;
                }
                // Clamp to the waste, which may itself be the lower value.
                let clamped: i64 = if reusable > waste_area {
                    waste_area
                } else {
                    reusable
                };
                proof {
                    if exists|i0: int|
                        0 <= i0 < layouts@.len() && has_reusable_box(
                            #[trigger] layouts@[i0],
                            min_size as int,
                            self.kerf(),
                        ) {
                        assert(clamped >= min_size || clamped == waste_area);
                    }
                }
                let actual_waste = waste_area - clamped;
                let actual_pct = percentage_of(actual_waste, total_area);
                (Some(clamped), Some(actual_waste), Some(actual_pct))
            },
            None => (None, None, None),
        };

        Summary {
            total_panels,
            total_area,
            used_area,
            waste_area,
            waste_percentage,
            reusable_remnant_area,
            actual_waste_area,
            actual_waste_percentage,
        }
    }
}

/// `part` out of `total` in hundredths of a percent, rounded down.
fn percentage_of(part: i64, total: i64) -> (r: i64)
    requires
        -4_611_686_018_427_387_903 <= part <= 4_611_686_018_427_387_903,
        -4_611_686_018_427_387_903 <= total <= 4_611_686_018_427_387_903,
        part <= total,
    ensures
        r == spec_percentage(part as int, total as int),
        0 <= r <= 10000,
{
    if total > 0 {
        let clamped: i64 = if part > 0 {
            part
        } else {
            0
        };
        let scaled: i128 = (clamped as i128) * 10000;
        let pct: i128 = scaled / (total as i128);
        proof {
            assert(0 <= scaled / (total as i128) <= 10000) by (nonlinear_arith)
                requires
                    scaled == (clamped as i128) * 10000,
                    0 <= clamped <= total,
                    1 <= total,
            ;
        }
        pct as i64
    } else {
        0
    }
}

} // verus!

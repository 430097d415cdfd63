//! The output remnant extractor: turns the maxrects free-rectangle set of a
//! finished panel into tidy reported leftovers. Perfectly aligned adjacent
//! rectangles are merged to a fixpoint, the result is ordered by area, tiny
//! strips are dropped, and rectangles contained in an earlier reported one
//! are suppressed.

use vstd::prelude::*;

use crate::geom::{
    area_bounded, area_rect, expanded_rect, layout_bounded, lemma_covered_extend, placement_rect,
    rect_covered, rect_inside, rects_overlap, usable_rect, GRect,
};
use crate::optimizer::Optimizer;
use crate::types::{PanelLayout, UnusedArea};

verus! {

/// Area of a reported rectangle.
pub open spec fn spec_area(a: UnusedArea) -> int {
    a.width * a.height
}

/// Ordered by area, largest first.
pub open spec fn sorted_by_area_desc(s: Seq<UnusedArea>) -> bool {
    forall|i: int, j: int| 0 <= i < j < s.len() ==> spec_area(#[trigger] s[i]) >= spec_area(
        #[trigger] s[j],
    )
}

/// Two rectangles that a merge pass would unite: aligned on one axis and
/// exactly adjacent on the other.
pub open spec fn mergeable(a: UnusedArea, b: UnusedArea) -> bool {
    (a.x == b.x && a.width == b.width && (a.y == b.y + b.height || b.y == a.y + a.height)) || (
    a.y == b.y && a.height == b.height && (a.x == b.x + b.width || b.x == a.x + a.width))
}

/// What the extractor guarantees of every rectangle it works with: within
/// the outer bound and clear of every obstacle.
pub open spec fn rect_clear(a: UnusedArea, outer: GRect, obstacles: Seq<GRect>) -> bool {
    &&& area_bounded(a)
    &&& a.width >= 1
    &&& a.height >= 1
    &&& rect_inside(area_rect(a), outer)
    &&& forall|o: int| 0 <= o < obstacles.len() ==> !rects_overlap(
        area_rect(a),
        #[trigger] obstacles[o],
    )
}

/// Every obstacle has positive dimensions, so that "does not overlap" is
/// meaningful for unions.
pub open spec fn obstacles_positive(obstacles: Seq<GRect>) -> bool {
    forall|o: int| 0 <= o < obstacles.len() ==> (#[trigger] obstacles[o]).w >= 1 && obstacles[o].h
        >= 1
}

/// The exact union of two vertically adjacent rectangles of equal x-range
/// stays clear of whatever both parts were clear of.
proof fn lemma_merge_clear_vertical(
    a: UnusedArea,
    b: UnusedArea,
    m: UnusedArea,
    outer: GRect,
    obstacles: Seq<GRect>,
)
    requires
        rect_clear(a, outer, obstacles),
        rect_clear(b, outer, obstacles),
        obstacles_positive(obstacles),
        area_bounded(m),
        m.x == a.x && a.x == b.x && a.width == b.width && m.width == a.width,
        a.y == b.y + b.height || b.y == a.y + a.height,
        m.y == if a.y <= b.y {
            a.y
        } else {
            b.y
        },
        m.height == a.height + b.height,
    ensures
        rect_clear(m, outer, obstacles),
{
    assert forall|o: int| 0 <= o < obstacles.len() implies !rects_overlap(
        area_rect(m),
        #[trigger] obstacles[o],
    ) by {
        assert(!rects_overlap(area_rect(a), obstacles[o]));
        assert(!rects_overlap(area_rect(b), obstacles[o]));
        assert(obstacles[o].w >= 1 && obstacles[o].h >= 1);
    }
}

/// The horizontal counterpart of the vertical union lemma.
proof fn lemma_merge_clear_horizontal(
    a: UnusedArea,
    b: UnusedArea,
    m: UnusedArea,
    outer: GRect,
    obstacles: Seq<GRect>,
)
    requires
        rect_clear(a, outer, obstacles),
        rect_clear(b, outer, obstacles),
        obstacles_positive(obstacles),
        area_bounded(m),
        m.y == a.y && a.y == b.y && a.height == b.height && m.height == a.height,
        a.x == b.x + b.width || b.x == a.x + a.width,
        m.x == if a.x <= b.x {
            a.x
        } else {
            b.x
        },
        m.width == a.width + b.width,
    ensures
        rect_clear(m, outer, obstacles),
{
    assert forall|o: int| 0 <= o < obstacles.len() implies !rects_overlap(
        area_rect(m),
        #[trigger] obstacles[o],
    ) by {
        assert(!rects_overlap(area_rect(a), obstacles[o]));
        assert(!rects_overlap(area_rect(b), obstacles[o]));
        assert(obstacles[o].w >= 1 && obstacles[o].h >= 1);
    }
}

/// How many flags of the prefix are set.
spec fn count_true(s: Seq<bool>, n: int) -> int
    decreases n,
{
    if n <= 0 || n > s.len() {
        0
    } else {
        count_true(s, n - 1) + if s[n - 1] {
            1int
        } else {
            0int
        }
    }
}

proof fn lemma_count_true_set(s: Seq<bool>, j: int, n: int)
    requires
        0 <= j < s.len(),
        !s[j],
    ensures
        j < n <= s.len() ==> count_true(s.update(j, true), n) == count_true(s, n) + 1,
        n <= j ==> count_true(s.update(j, true), n) == count_true(s, n),
    decreases n,
{
    if n > 0 {
        lemma_count_true_set(s, j, n - 1);
    }
}

proof fn lemma_count_true_bound(s: Seq<bool>, n: int)
    ensures
        0 <= count_true(s, n) <= if n <= s.len() {
            if n >= 0 {
                n
            } else {
                0
            }
        } else {
            s.len() as int
        },
    decreases n,
{
    if n > 0 {
        lemma_count_true_bound(s, n - 1);
    }
}

impl Optimizer {
    /// Merges perfectly aligned adjacent rectangles to a fixpoint, then
    /// orders the result by area descending and reports only rectangles at
    /// least 10 units wide and high that no earlier-reported rectangle
    /// already contains.
    pub(crate) fn merge_unused_areas(
        &self,
        areas: Vec<UnusedArea>,
        Ghost(outer): Ghost<GRect>,
        Ghost(obstacles): Ghost<Seq<GRect>>,
    ) -> (res: Vec<UnusedArea>)
        requires
            obstacles_positive(obstacles),
            forall|k: int| 0 <= k < areas@.len() ==> rect_clear(#[trigger] areas@[k], outer, obstacles),
        ensures
            forall|k: int|
                0 <= k < res@.len() ==> {
                    &&& rect_clear(#[trigger] res@[k], outer, obstacles)
                    &&& res@[k].width >= 10
                    &&& res@[k].height >= 10
                },
            sorted_by_area_desc(res@),
            forall|i: int, j: int|
                0 <= i < j < res@.len() ==> !rect_inside(
                    area_rect(#[trigger] res@[j]),
                    area_rect(#[trigger] res@[i]),
                ),
            forall|k: int|
                0 <= k < areas@.len() && areas@[k].width >= 10 && areas@[k].height >= 10
                    ==> rect_covered(area_rect(#[trigger] areas@[k]), res@),
            forall|p: int, k: int|
                0 <= p < res@.len() && 0 <= k < res@.len() && p != k ==> !mergeable(
                    #[trigger] res@[p],
                    #[trigger] res@[k],
                ),
    {
        let ghost input0 = areas@;
        let mut working = areas;
        proof {
            assert forall|k: int| 0 <= k < input0.len() implies rect_covered(
                area_rect(#[trigger] input0[k]),
                working@,
            ) by {
                assert(rect_inside(area_rect(input0[k]), area_rect(working@[k])));
            }
        }

        // Merge aligned adjacent rectangles until a full pass merges none.
        loop
            invariant
                obstacles_positive(obstacles),
                forall|k: int|
                    0 <= k < working@.len() ==> rect_clear(#[trigger] working@[k], outer, obstacles),
                forall|k: int|
                    0 <= k < input0.len() ==> rect_covered(
                        area_rect(#[trigger] input0[k]),
                        working@,
                    ),
            ensures
                forall|k: int|
                    0 <= k < working@.len() ==> rect_clear(#[trigger] working@[k], outer, obstacles),
                forall|k: int|
                    0 <= k < input0.len() ==> rect_covered(
                        area_rect(#[trigger] input0[k]),
                        working@,
                    ),
                forall|p: int, k: int|
                    0 <= p < k < working@.len() ==> !mergeable(
                        #[trigger] working@[p],
                        #[trigger] working@[k],
                    ),
            decreases working@.len(),
        {
            let ghost start_len = working@.len() as int;
            let mut merged_any = false;
            let mut new_working: Vec<UnusedArea> = Vec::new();
            let mut used: Vec<bool> = Vec::new();
            let n = working.len();
            let mut f: usize = 0;
            while f < n
                invariant
                    n == working@.len(),
                    used@.len() == f,
                    0 <= f <= n,
                    forall|k: int| 0 <= k < f ==> !(#[trigger] used@[k]),
                decreases n - f,
            {
                used.push(false);
                f += 1;
            }
            let mut merges_count: usize = 0;
            proof {
                lemma_count_true_none(used@, n as int);
            }
            let mut i: usize = 0;
            while i < n
                invariant
                    obstacles_positive(obstacles),
                    n == working@.len(),
                    used@.len() == n,
                    0 <= i <= n,
                    merges_count <= n,
                    forall|k: int|
                        0 <= k < working@.len() ==> rect_clear(
                            #[trigger] working@[k],
                            outer,
                            obstacles,
                        ),
                    forall|k: int|
                        0 <= k < new_working@.len() ==> rect_clear(
                            #[trigger] new_working@[k],
                            outer,
                            obstacles,
                        ),
                    forall|k: int| 0 <= k < i ==> #[trigger] used@[k],
                    forall|j0: int|
                        0 <= j0 < n && used@[j0] ==> rect_covered(
                            area_rect(#[trigger] working@[j0]),
                            new_working@,
                        ),
                    new_working@.len() + merges_count == count_true(used@, n as int),
                    merged_any <==> merges_count >= 1,
                    merges_count == 0 ==> forall|k: int|
                        0 <= k < n ==> (#[trigger] used@[k] <==> k < i),
                    merges_count == 0 ==> new_working@ == working@.take(i as int),
                    merges_count == 0 ==> forall|i0: int, j0: int|
                        0 <= i0 < i && i0 < j0 < n ==> !mergeable(
                            #[trigger] working@[i0],
                            #[trigger] working@[j0],
                        ),
                decreases n - i,
            {
                if !used[i] {
                    let ghost used_before = used@;
                    let mut current = working[i];
                    used.set(i, true);
                    proof {
                        lemma_count_true_set(used_before, i as int, n as int);
                        assert(rect_inside(area_rect(working@[i as int]), area_rect(current)));
                    }
                    let mut j: usize = i + 1;
                    while j < n
                        invariant
                            obstacles_positive(obstacles),
                            n == working@.len(),
                            used@.len() == n,
                            0 <= i < n,
                            i < j <= n,
                            merges_count <= n,
                            rect_clear(current, outer, obstacles),
                            forall|k: int|
                                0 <= k < working@.len() ==> rect_clear(
                                    #[trigger] working@[k],
                                    outer,
                                    obstacles,
                                ),
                            forall|k: int|
                                0 <= k < new_working@.len() ==> rect_clear(
                                    #[trigger] new_working@[k],
                                    outer,
                                    obstacles,
                                ),
                            forall|k: int| 0 <= k <= i ==> #[trigger] used@[k],
                            forall|j0: int|
                                0 <= j0 < n && used@[j0] ==> rect_covered(
                                    area_rect(#[trigger] working@[j0]),
                                    new_working@,
                                ) || rect_inside(area_rect(working@[j0]), area_rect(current)),
                            new_working@.len() + merges_count + 1 == count_true(used@, n as int),
                            merged_any <==> merges_count >= 1,
                            merges_count == 0 ==> forall|k: int|
                                0 <= k < n ==> (#[trigger] used@[k] <==> k <= i),
                            merges_count == 0 ==> new_working@ == working@.take(i as int),
                            merges_count == 0 ==> current == working@[i as int],
                            merges_count == 0 ==> forall|i0: int, j0: int|
                                0 <= i0 < i && i0 < j0 < n ==> !mergeable(
                                    #[trigger] working@[i0],
                                    #[trigger] working@[j0],
                                ),
                            merges_count == 0 ==> forall|j0: int|
                                i < j0 < j ==> !mergeable(
                                    working@[i as int],
                                    #[trigger] working@[j0],
                                ),
                        decreases n - j,
                    {
                        if !used[j] {
                            let other = working[j];

                            // Vertically adjacent with the same x and width.
                            let same_x = current.x == other.x;
                            let same_width = current.width == other.width;
                            let v_adjacent = current.y == other.y + other.height || other.y
                                == current.y + current.height;
                            if same_x && same_width && v_adjacent {
                                let new_y = if current.y <= other.y {
                                    current.y
                                } else {
                                    other.y
                                };
                                let merged = UnusedArea {
                                    x: current.x,
                                    y: new_y,
                                    width: current.width,
                                    height: current.height + other.height,
                                };
                                proof {
                                    lemma_merge_clear_vertical(
                                        current,
                                        other,
                                        merged,
                                        outer,
                                        obstacles,
                                    );
                                    lemma_count_true_set(used@, j as int, n as int);
                                    lemma_count_true_bound(used@, n as int);
                                }
                                let ghost prev_current = current;
                                current = merged;
                                proof {
                                    assert(rect_inside(area_rect(prev_current), area_rect(current)));
                                    assert(rect_inside(
                                        area_rect(working@[j as int]),
                                        area_rect(current),
                                    ));
                                }
                                used.set(j, true);
                                merges_count += 1;
                                merged_any = true;
                                j += 1;
                                continue ;
                            }

                            // Horizontally adjacent with the same y and height.
                            let same_y = current.y == other.y;
                            let same_height = current.height == other.height;
                            let h_adjacent = current.x == other.x + other.width || other.x
                                == current.x + current.width;
                            if same_y && same_height && h_adjacent {
                                let new_x = if current.x <= other.x {
                                    current.x
                                } else {
                                    other.x
                                };
                                let merged = UnusedArea {
                                    x: new_x,
                                    y: current.y,
                                    width: current.width + other.width,
                                    height: current.height,
                                };
                                proof {
                                    lemma_merge_clear_horizontal(
                                        current,
                                        other,
                                        merged,
                                        outer,
                                        obstacles,
                                    );
                                    lemma_count_true_set(used@, j as int, n as int);
                                    lemma_count_true_bound(used@, n as int);
                                }
                                let ghost prev_current = current;
                                current = merged;
                                proof {
                                    assert(rect_inside(area_rect(prev_current), area_rect(current)));
                                    assert(rect_inside(
                                        area_rect(working@[j as int]),
                                        area_rect(current),
                                    ));
                                }
                                used.set(j, true);
                                merges_count += 1;
                                merged_any = true;
                            }
                        }
                        j += 1;
                    }
                    let ghost pre_push = new_working@;
                    new_working.push(current);
                    proof {
                        if merges_count == 0 {
                            assert(current == working@[i as int]);
                            assert(new_working@ =~= working@.take(i + 1));
                        }
                        assert forall|j0: int| 0 <= j0 < n && used@[j0] implies rect_covered(
                            area_rect(#[trigger] working@[j0]),
                            new_working@,
                        ) by {
                            if rect_covered(area_rect(working@[j0]), pre_push) {
                                lemma_covered_extend(
                                    area_rect(working@[j0]),
                                    pre_push,
                                    new_working@,
                                );
                            } else {
                                assert(rect_inside(area_rect(working@[j0]), area_rect(current)));
                                assert(rect_inside(
                                    area_rect(working@[j0]),
                                    area_rect(new_working@[new_working@.len() - 1]),
                                ));
                            }
                        }
                    }
                }
                i += 1;
            }
            proof {
                lemma_count_true_bound(used@, n as int);
                assert forall|k: int| 0 <= k < input0.len() implies rect_covered(
                    area_rect(#[trigger] input0[k]),
                    new_working@,
                ) by {
                    let m = choose|m: int|
                        0 <= m < working@.len() && rect_inside(
                            area_rect(input0[k]),
                            area_rect(#[trigger] working@[m]),
                        );
                    assert(used@[m]);
                    let r = choose|r: int|
                        0 <= r < new_working@.len() && rect_inside(
                            area_rect(working@[m]),
                            area_rect(#[trigger] new_working@[r]),
                        );
                    assert(rect_inside(area_rect(input0[k]), area_rect(new_working@[r])));
                }
            }
            let ghost pass_input = working@;
            working = new_working;
            if !merged_any {
                proof {
                    assert(working@ == pass_input.take(n as int));
                    assert(pass_input.take(n as int) =~= pass_input);
                    assert forall|p: int, k: int| 0 <= p < k < working@.len() implies !mergeable(
                        #[trigger] working@[p],
                        #[trigger] working@[k],
                    ) by {
                        assert(working@[p] == pass_input[p]);
                        assert(working@[k] == pass_input[k]);
                        assert(!mergeable(pass_input[p], pass_input[k]));
                    }
                }
                break ;
            }
            proof {
                lemma_count_true_all(used@, n as int);
            }
        }

        // Order by area descending.
        let ghost pre_sort = working@;
        sort_areas_desc(&mut working);
        proof {
            broadcast use vstd::seq_lib::group_to_multiset_ensures;

            assert forall|k: int| 0 <= k < input0.len() implies rect_covered(
                area_rect(#[trigger] input0[k]),
                working@,
            ) by {
                let m = choose|m: int|
                    0 <= m < pre_sort.len() && rect_inside(
                        area_rect(input0[k]),
                        area_rect(#[trigger] pre_sort[m]),
                    );
                assert(pre_sort.contains(pre_sort[m]));
                vstd::seq_lib::to_multiset_contains(pre_sort, pre_sort[m]);
                vstd::seq_lib::to_multiset_contains(working@, pre_sort[m]);
                assert(working@.contains(pre_sort[m]));
                let r = choose|r: int| 0 <= r < working@.len() && working@[r] == pre_sort[m];
                assert(rect_inside(area_rect(input0[k]), area_rect(working@[r])));
            }
            assert forall|p: int, k: int|
                0 <= p < working@.len() && 0 <= k < working@.len() && p != k implies !mergeable(
                #[trigger] working@[p],
                #[trigger] working@[k],
            ) by {
                if working@[p] == working@[k] {
                    assert(working@[p].width >= 1 && working@[p].height >= 1);
                } else {
                    assert(pre_sort.contains(working@[p]));
                    assert(pre_sort.contains(working@[k]));
                    let ip = choose|ii: int|
                        0 <= ii < pre_sort.len() && pre_sort[ii] == working@[p];
                    let ik = choose|ii: int|
                        0 <= ii < pre_sort.len() && pre_sort[ii] == working@[k];
                    assert(ip != ik);
                    if ip < ik {
                        assert(!mergeable(pre_sort[ip], pre_sort[ik]));
                    } else {
                        assert(!mergeable(pre_sort[ik], pre_sort[ip]));
                    }
                }
            }
        }

        // Report, skipping thin rectangles and rectangles contained in an
        // earlier-reported (larger) one.
        let mut result: Vec<UnusedArea> = Vec::new();
        let n = working.len();
        let mut i: usize = 0;
        while i < n
            invariant
                n == working@.len(),
                0 <= i <= n,
                forall|k: int|
                    0 <= k < working@.len() ==> rect_clear(#[trigger] working@[k], outer, obstacles),
                sorted_by_area_desc(working@),
                forall|k: int|
                    0 <= k < result@.len() ==> {
                        &&& rect_clear(#[trigger] result@[k], outer, obstacles)
                        &&& result@[k].width >= 10
                        &&& result@[k].height >= 10
                    },
                forall|k: int|
                    #![trigger result@[k]]
                    0 <= k < result@.len() ==> exists|w: int|
                        0 <= w < i && (#[trigger] working@[w]) == result@[k],
                sorted_by_area_desc(result@),
                forall|p: int, q: int|
                    0 <= p < q < result@.len() ==> !rect_inside(
                        area_rect(#[trigger] result@[q]),
                        area_rect(#[trigger] result@[p]),
                    ),
                forall|m0: int|
                    0 <= m0 < i && working@[m0].width >= 10 && working@[m0].height >= 10
                        ==> rect_covered(area_rect(#[trigger] working@[m0]), result@),
            decreases n - i,
        {
            let area = working[i];
            if area.width < 10 || area.height < 10 {
                i += 1;
                continue ;
            }
            let mut is_contained = false;
            let m = result.len();
            let mut k: usize = 0;
            while k < m
                invariant
                    m == result@.len(),
                    0 <= k <= m,
                    0 <= i < n,
                    n == working@.len(),
                    area == working@[i as int],
                    forall|p: int| 0 <= p < result@.len() ==> area_bounded(#[trigger] result@[p]),
                    area_bounded(area),
                    is_contained <==> exists|p: int|
                        0 <= p < k && rect_inside(area_rect(area), area_rect(#[trigger] result@[p])),
                decreases m - k,
            {
                if result[k].contains(&area) {
                    is_contained = true;
                }
                k += 1;
            }
            if is_contained {
                proof {
                    let p0 = choose|p: int|
                        0 <= p < result@.len() && rect_inside(
                            area_rect(area),
                            area_rect(#[trigger] result@[p]),
                        );
                    assert(rect_covered(area_rect(working@[i as int]), result@));
                }
            }
            if !is_contained {
                let ghost prev = result@;
                result.push(area);
                proof {
                    assert forall|m0: int|
                        0 <= m0 < i && working@[m0].width >= 10 && working@[m0].height >= 10
                        implies rect_covered(area_rect(#[trigger] working@[m0]), result@) by {
                        lemma_covered_extend(area_rect(working@[m0]), prev, result@);
                    }
                    assert(rect_inside(
                        area_rect(working@[i as int]),
                        area_rect(result@[result@.len() - 1]),
                    ));
                    assert(rect_covered(area_rect(working@[i as int]), result@));
                    assert forall|p: int, q: int| 0 <= p < q < result@.len() implies !rect_inside(
                        area_rect(#[trigger] result@[q]),
                        area_rect(#[trigger] result@[p]),
                    ) by {
                        if q == result@.len() - 1 {
                            assert(result@[p] == prev[p]);
                            assert(!rect_inside(area_rect(area), area_rect(prev[p])));
                        } else {
                            assert(result@[p] == prev[p]);
                            assert(result@[q] == prev[q]);
                        }
                    }
                    assert(result@[result@.len() - 1] == working@[i as int]);
                    assert forall|p: int, q: int| 0 <= p < q < result@.len() implies spec_area(
                        #[trigger] result@[p],
                    ) >= spec_area(#[trigger] result@[q]) by {
                        if q == result@.len() - 1 {
                            assert(result@[p] == prev[p]);
                            let w = choose|w: int|
                                0 <= w < i && (#[trigger] working@[w]) == result@[p];
                            assert(spec_area(working@[w]) >= spec_area(working@[i as int]));
                        }
                    }
                }
            }
            i += 1;
        }
        proof {
            assert forall|p: int, k: int|
                0 <= p < result@.len() && 0 <= k < result@.len() && p != k implies !mergeable(
                #[trigger] result@[p],
                #[trigger] result@[k],
            ) by {
                if result@[p] == result@[k] {
                    assert(rect_inside(area_rect(result@[k]), area_rect(result@[p])));
                    assert(false);
                } else {
                    let wp = choose|w: int| 0 <= w < i && (#[trigger] working@[w]) == result@[p];
                    let wk = choose|w: int| 0 <= w < i && (#[trigger] working@[w]) == result@[k];
                    assert(wp != wk);
                    assert(!mergeable(working@[wp], working@[wk]));
                }
            }
            assert forall|k: int|
                0 <= k < input0.len() && input0[k].width >= 10 && input0[k].height >= 10
                implies rect_covered(area_rect(#[trigger] input0[k]), result@) by {
                let m = choose|m: int|
                    0 <= m < working@.len() && rect_inside(
                        area_rect(input0[k]),
                        area_rect(#[trigger] working@[m]),
                    );
                assert(working@[m].width >= input0[k].width);
                assert(working@[m].height >= input0[k].height);
                let r = choose|r: int|
                    0 <= r < result@.len() && rect_inside(
                        area_rect(working@[m]),
                        area_rect(#[trigger] result@[r]),
                    );
                assert(rect_inside(area_rect(input0[k]), area_rect(result@[r])));
            }
        }
        result
    }

    /// The leftovers reported for one finished panel.
    pub(crate) fn compute_output_unused_areas(&self, layout: &PanelLayout) -> (res: Vec<UnusedArea>)
        requires
            self.wf(),
            layout_bounded(*layout),
            forall|i: int|
                0 <= i < layout.placements@.len() ==> (#[trigger] layout.placements@[i]).width >= 1
                    && layout.placements@[i].height >= 1,
        ensures
            forall|k: int|
                0 <= k < res@.len() ==> {
                    &&& area_bounded(#[trigger] res@[k])
                    &&& res@[k].width >= 10
                    &&& res@[k].height >= 10
                    &&& rect_inside(area_rect(res@[k]), usable_rect(*layout))
                    &&& forall|i: int|
                        0 <= i < layout.placements@.len() ==> !rects_overlap(
                            area_rect(res@[k]),
                            expanded_rect(
                                placement_rect(#[trigger] layout.placements@[i]),
                                self.kerf(),
                            ),
                        )
                },
            sorted_by_area_desc(res@),
            forall|p: int, q: int|
                0 <= p < q < res@.len() ==> !rect_inside(
                    area_rect(#[trigger] res@[q]),
                    area_rect(#[trigger] res@[p]),
                ),
            forall|p: int, k: int|
                0 <= p < res@.len() && 0 <= k < res@.len() && p != k ==> !mergeable(
                    #[trigger] res@[p],
                    #[trigger] res@[k],
                ),
            forall|q: GRect|
                #![trigger rect_covered(q, res@)]
                q.w >= 10 && q.h >= 10 && rect_inside(q, usable_rect(*layout)) && (forall|i: int|
                    0 <= i < layout.placements@.len() ==> !rects_overlap(
                        q,
                        expanded_rect(
                            placement_rect(#[trigger] layout.placements@[i]),
                            self.kerf(),
                        ),
                    )) ==> rect_covered(q, res@),
    {
        let raw_areas = self.find_unused_areas(layout);
        let ghost obstacles = Seq::new(
            layout.placements@.len(),
            |i: int| expanded_rect(placement_rect(layout.placements@[i]), self.kerf()),
        );
        proof {
            assert forall|o: int| 0 <= o < obstacles.len() implies (#[trigger] obstacles[o]).w >= 1
                && obstacles[o].h >= 1 by {
                assert(obstacles[o] == expanded_rect(
                    placement_rect(layout.placements@[o]),
                    self.kerf(),
                ));
            }
            assert forall|k: int| 0 <= k < raw_areas@.len() implies rect_clear(
                #[trigger] raw_areas@[k],
                usable_rect(*layout),
                obstacles,
            ) by {
                assert forall|o: int| 0 <= o < obstacles.len() implies !rects_overlap(
                    area_rect(raw_areas@[k]),
                    #[trigger] obstacles[o],
                ) by {
                    assert(obstacles[o] == expanded_rect(
                        placement_rect(layout.placements@[o]),
                        self.kerf(),
                    ));
                }
            }
        }
        let ghost raw_view = raw_areas@;
        let merged = self.merge_unused_areas(
            raw_areas,
            Ghost(usable_rect(*layout)),
            Ghost(obstacles),
        );
        proof {
            assert forall|q: GRect| #![trigger rect_covered(q, merged@)]
                q.w >= 10 && q.h >= 10 && rect_inside(q, usable_rect(*layout)) && (forall|i: int|
                    0 <= i < layout.placements@.len() ==> !rects_overlap(
                        q,
                        expanded_rect(
                            placement_rect(#[trigger] layout.placements@[i]),
                            self.kerf(),
                        ),
                    )) implies rect_covered(q, merged@) by {
                assert(rect_covered(q, raw_view));
                let k = choose|k: int|
                    0 <= k < raw_view.len() && rect_inside(q, area_rect(#[trigger] raw_view[k]));
                assert(raw_view[k].width >= 10 && raw_view[k].height >= 10);
                assert(rect_covered(area_rect(raw_view[k]), merged@));
                let r = choose|r: int|
                    0 <= r < merged@.len() && rect_inside(
                        area_rect(raw_view[k]),
                        area_rect(#[trigger] merged@[r]),
                    );
                assert(rect_inside(q, area_rect(merged@[r])));
            }
            assert forall|k: int, i: int|
                0 <= k < merged@.len() && 0 <= i < layout.placements@.len() implies !rects_overlap(
                area_rect(#[trigger] merged@[k]),
                expanded_rect(placement_rect(#[trigger] layout.placements@[i]), self.kerf()),
            ) by {
                assert(obstacles[i] == expanded_rect(
                    placement_rect(layout.placements@[i]),
                    self.kerf(),
                ));
                assert(!rects_overlap(area_rect(merged@[k]), obstacles[i]));
            }
        }
        merged
    }
}

/// All flags of a prefix set means the count is the prefix length.
proof fn lemma_count_true_all(s: Seq<bool>, n: int)
    requires
        0 <= n <= s.len(),
        forall|k: int| 0 <= k < n ==> #[trigger] s[k],
    ensures
        count_true(s, n) == n,
    decreases n,
{
    if n > 0 {
        lemma_count_true_all(s, n - 1);
    }
}

/// No flags of a prefix set means the count is zero.
proof fn lemma_count_true_none(s: Seq<bool>, n: int)
    requires
        0 <= n <= s.len(),
        forall|k: int| 0 <= k < n ==> !(#[trigger] s[k]),
    ensures
        count_true(s, n) == 0,
    decreases n,
{
    if n > 0 {
        lemma_count_true_none(s, n - 1);
    }
}

/// Is the first rectangle's area strictly smaller?
fn area_less(a: &UnusedArea, b: &UnusedArea) -> (r: bool)
    requires
        area_bounded(*a),
        area_bounded(*b),
    ensures
        r == (spec_area(*a) < spec_area(*b)),
{
    proof {
        assert((a.width as int) * (a.height as int) <= 16 * crate::types::MAX_DIM
            * crate::types::MAX_DIM) by (nonlinear_arith)
            requires
                0 <= a.width <= 4 * crate::types::MAX_DIM,
                0 <= a.height <= 4 * crate::types::MAX_DIM,
        ;
        assert((b.width as int) * (b.height as int) <= 16 * crate::types::MAX_DIM
            * crate::types::MAX_DIM) by (nonlinear_arith)
            requires
                0 <= b.width <= 4 * crate::types::MAX_DIM,
                0 <= b.height <= 4 * crate::types::MAX_DIM,
        ;
    }
    (a.width as i128) * (a.height as i128) < (b.width as i128) * (b.height as i128)
}

/// Sorts the rectangles by area, largest first, by insertion.
fn sort_areas_desc(v: &mut Vec<UnusedArea>)
    requires
        forall|k: int| 0 <= k < old(v)@.len() ==> area_bounded(#[trigger] old(v)@[k]),
    ensures
        final(v)@.to_multiset() == old(v)@.to_multiset(),
        final(v)@.len() == old(v)@.len(),
        sorted_by_area_desc(final(v)@),
        forall|k: int| 0 <= k < final(v)@.len() ==> old(v)@.contains(#[trigger] final(v)@[k]),
{
    broadcast use vstd::seq_lib::group_to_multiset_ensures;

    let n = v.len();
    let mut i: usize = 1;
    while i < n && n > 0
        invariant
            n == v@.len(),
            1 <= i <= n || (n == 0 && i == 1),
            v@.to_multiset() == old(v)@.to_multiset(),
            forall|k: int| 0 <= k < v@.len() ==> area_bounded(#[trigger] v@[k]),
            i <= n ==> sorted_by_area_desc(v@.take(i as int)),
        decreases n - i,
    {
        let ghost pre = v@;
        let x = v.remove(i);
        let mut j: usize = i;
        while j > 0 && area_less(&v[j - 1], &x)
            invariant
                0 <= j <= i < n,
                v@.len() == n - 1,
                v@ == pre.remove(i as int),
                area_bounded(x),
                forall|k: int| 0 <= k < v@.len() ==> area_bounded(#[trigger] v@[k]),
                forall|k: int| j <= k < i ==> spec_area(#[trigger] v@[k]) < spec_area(x),
            decreases j,
        {
            j -= 1;
        }
        v.insert(j, x);
        proof {
            broadcast use vstd::multiset::group_multiset_axioms;

            vstd::seq_lib::to_multiset_insert(pre.remove(i as int), j as int, x);
            vstd::seq_lib::to_multiset_remove(pre, i as int);
            assert(pre.contains(pre[i as int]));
            vstd::seq_lib::to_multiset_contains(pre, pre[i as int]);
            assert(pre.to_multiset().count(pre[i as int]) > 0);
            assert(v@.to_multiset() =~= pre.to_multiset().remove(pre[i as int]).insert(
                pre[i as int],
            ));
            assert(pre.to_multiset().remove(pre[i as int]).insert(pre[i as int])
                =~= pre.to_multiset());
            assert(v@.to_multiset() == old(v)@.to_multiset());
            assert forall|p: int, q: int| 0 <= p < q < (i + 1) implies spec_area(
                #[trigger] v@.take(i + 1)[p],
            ) >= spec_area(#[trigger] v@.take(i + 1)[q]) by {
                assert(v@.take(i + 1)[p] == v@[p]);
                assert(v@.take(i + 1)[q] == v@[q]);
            }
        }
        i += 1;
    }
    proof {
        if n > 0 {
            assert(v@.take(n as int) =~= v@);
        }
        assert forall|k: int| 0 <= k < v@.len() implies old(v)@.contains(#[trigger] v@[k]) by {
            assert(v@.contains(v@[k]));
            vstd::seq_lib::to_multiset_contains(v@, v@[k]);
            vstd::seq_lib::to_multiset_contains(old(v)@, v@[k]);
        }
    }
}

} // verus!

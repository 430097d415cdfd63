//! Placement scoring: a candidate position for an item inside a free
//! rectangle gets a scalar score, lower being better.
//!
//! The score blends the bottom-left position, how tightly the item fits the
//! free rectangle, a penalty for leaving thin slivers, and a bonus for edge
//! contact with the panel border or existing pieces. All weights carry a
//! common factor of ten over their conventional statement so that every
//! term, including the position weight of a tenth per unit of x under
//! `min_initial_usage`, is an integer; a common factor does not change the
//! comparisons.

use vstd::prelude::*;

use crate::geom::{area_bounded, layout_bounded, placement_bounded};
use crate::optimizer::Optimizer;
use crate::types::{PanelLayout, Placement, UnusedArea, MAX_DIM};

verus! {

/// Position score: bottom-left placements first, rows before columns.
/// Under `min_initial_usage` the positional weight is smaller so that the
/// fit terms dominate.
pub open spec fn spec_position_score(x: int, y: int, min_initial: bool) -> int {
    if min_initial {
        y * 1000 + x
    } else {
        y * 100000 + 10 * x
    }
}

/// Leftover along one axis after placing a piece and its kerf.
pub open spec fn spec_leftover(avail: int, used: int, kerf: int) -> int {
    avail - used - kerf
}

/// Fraction of the free rectangle that the placement leaves unused, as a
/// fixed-point value scaled by 100000 and rounded toward zero.
pub open spec fn spec_fit_ratio_scaled(aw: int, ah: int, w: int, h: int, kerf: int) -> int {
    let lw = if spec_leftover(aw, w, kerf) > 0 {
        spec_leftover(aw, w, kerf)
    } else {
        0
    };
    let lh = if spec_leftover(ah, h, kerf) > 0 {
        spec_leftover(ah, h, kerf)
    } else {
        0
    };
    let denom = if aw * ah > 1 {
        aw * ah
    } else {
        1
    };
    (lw * lh * 100000) / denom
}

/// Penalty for leaving a strip thinner than 50 units along an axis.
pub open spec fn spec_sliver_penalty(aw: int, ah: int, w: int, h: int, kerf: int) -> int {
    (if 0 < spec_leftover(aw, w, kerf) && spec_leftover(aw, w, kerf) < 50 {
        (50 - spec_leftover(aw, w, kerf)) * 100
    } else {
        0
    }) + (if 0 < spec_leftover(ah, h, kerf) && spec_leftover(ah, h, kerf) < 50 {
        (50 - spec_leftover(ah, h, kerf)) * 100
    } else {
        0
    })
}

/// Bonus for almost finishing the free rectangle vertically: a leftover of
/// at most 10 closes the strip, one under 100 nearly does.
pub open spec fn spec_height_bonus(ah: int, h: int, kerf: int) -> int {
    let l = spec_leftover(ah, h, kerf);
    if l <= 10 {
        -500000
    } else if l < 100 {
        -200000
    } else {
        0
    }
}

/// Bonus for almost finishing the free rectangle horizontally.
pub open spec fn spec_width_bonus(aw: int, w: int, kerf: int) -> int {
    let l = spec_leftover(aw, w, kerf);
    if l <= 10 {
        -300000
    } else if l < 100 {
        -100000
    } else {
        0
    }
}

/// Contact length with the panel's trimming boundary, over the panel's
/// dimensions and trimming.
pub open spec fn spec_edge_contact_at(
    x: int,
    y: int,
    w: int,
    h: int,
    pw: int,
    ph: int,
    trim: int,
) -> int {
    (if x == trim {
        h
    } else {
        0
    }) + (if y == trim {
        w
    } else {
        0
    }) + (if x + w == pw - trim {
        h
    } else {
        0
    }) + (if y + h == ph - trim {
        w
    } else {
        0
    })
}

/// Contact length with the panel's trimming boundary.
pub open spec fn spec_edge_contact(x: int, y: int, w: int, h: int, l: PanelLayout) -> int {
    spec_edge_contact_at(x, y, w, h, l.width as int, l.height as int, l.trimming as int)
}

/// Contact length between the candidate and one existing placement: the
/// overlap along each edge that coincides with the placement's kerf-expanded
/// edge.
pub open spec fn spec_placement_contact(x: int, y: int, w: int, h: int, p: Placement, kerf: int) -> int {
    let p_right = p.x + p.width;
    let p_top = p.y + p.height;
    let v_lo = if y >= p.y {
        y
    } else {
        p.y as int
    };
    let v_hi = if y + h <= p_top {
        y + h
    } else {
        p_top
    };
    let h_lo = if x >= p.x {
        x
    } else {
        p.x as int
    };
    let h_hi = if x + w <= p_right {
        x + w
    } else {
        p_right
    };
    (if v_hi > v_lo && x == p_right + kerf {
        v_hi - v_lo
    } else {
        0
    }) + (if v_hi > v_lo && x + w + kerf == p.x {
        v_hi - v_lo
    } else {
        0
    }) + (if h_hi > h_lo && y == p_top + kerf {
        h_hi - h_lo
    } else {
        0
    }) + (if h_hi > h_lo && y + h + kerf == p.y {
        h_hi - h_lo
    } else {
        0
    })
}

/// Total contact of the candidate with the placements of a prefix of the
/// layout's placement list.
pub open spec fn spec_placements_contact(
    ps: Seq<Placement>,
    x: int,
    y: int,
    w: int,
    h: int,
    kerf: int,
) -> int
    decreases ps.len(),
{
    if ps.len() == 0 {
        0
    } else {
        spec_placements_contact(ps.drop_last(), x, y, w, h, kerf) + spec_placement_contact(
            x,
            y,
            w,
            h,
            ps.last(),
            kerf,
        )
    }
}

/// Full contact score over explicit panel data: edges plus placements.
pub open spec fn spec_contact_score_at(
    x: int,
    y: int,
    w: int,
    h: int,
    placements: Seq<Placement>,
    pw: int,
    ph: int,
    trim: int,
    kerf: int,
) -> int {
    spec_edge_contact_at(x, y, w, h, pw, ph, trim) + spec_placements_contact(
        placements,
        x,
        y,
        w,
        h,
        kerf,
    )
}

/// Full contact score: panel edges plus every existing placement.
pub open spec fn spec_contact_score(
    x: int,
    y: int,
    w: int,
    h: int,
    l: PanelLayout,
    kerf: int,
) -> int {
    spec_contact_score_at(
        x,
        y,
        w,
        h,
        l.placements@,
        l.width as int,
        l.height as int,
        l.trimming as int,
        kerf,
    )
}

/// The blended score of a candidate over explicit panel data: the free
/// rectangle's dimensions, the existing placements, and the panel's own
/// dimensions and trimming. Lower is better.
pub open spec fn spec_placement_score_at(
    x: int,
    y: int,
    w: int,
    h: int,
    aw: int,
    ah: int,
    placements: Seq<Placement>,
    pw: int,
    ph: int,
    trim: int,
    kerf: int,
    min_initial: bool,
    remnants: bool,
) -> int {
    let pos = spec_position_score(x, y, min_initial);
    let sliver = spec_sliver_penalty(aw, ah, w, h, kerf);
    let contact = spec_contact_score_at(x, y, w, h, placements, pw, ph, trim, kerf);
    if min_initial {
        pos + spec_fit_ratio_scaled(aw, ah, w, h, kerf) - 5000 * contact + sliver
            + spec_height_bonus(ah, h, kerf) + spec_width_bonus(aw, w, kerf)
    } else if remnants {
        pos - 500 * contact + 2 * sliver
    } else {
        pos - 2000 * contact + sliver
    }
}

/// The blended score of a candidate, by objective. Lower is better.
pub open spec fn spec_placement_score(
    x: int,
    y: int,
    w: int,
    h: int,
    area: UnusedArea,
    l: PanelLayout,
    kerf: int,
    min_initial: bool,
    remnants: bool,
) -> int {
    spec_placement_score_at(
        x,
        y,
        w,
        h,
        area.width as int,
        area.height as int,
        l.placements@,
        l.width as int,
        l.height as int,
        l.trimming as int,
        kerf,
        min_initial,
        remnants,
    )
}

/// One placement contributes at most four overlap lengths, each bounded by
/// the coordinate range.
proof fn lemma_placement_contact_bound(x: int, y: int, w: int, h: int, p: Placement, kerf: int)
    requires
        placement_bounded(p),
        0 <= x,
        0 <= y,
        0 <= w <= 4 * MAX_DIM,
        0 <= h <= 4 * MAX_DIM,
    ensures
        0 <= spec_placement_contact(x, y, w, h, p, kerf) <= 16 * MAX_DIM,
{
}

/// The contact sum over a placement list grows by at most `16 * MAX_DIM`
/// per placement.
proof fn lemma_placements_contact_bound(
    ps: Seq<Placement>,
    x: int,
    y: int,
    w: int,
    h: int,
    kerf: int,
)
    requires
        forall|i: int| 0 <= i < ps.len() ==> placement_bounded(#[trigger] ps[i]),
        0 <= x,
        0 <= y,
        0 <= w <= 4 * MAX_DIM,
        0 <= h <= 4 * MAX_DIM,
    ensures
        0 <= spec_placements_contact(ps, x, y, w, h, kerf) <= 16 * MAX_DIM * ps.len(),
    decreases ps.len(),
{
    if ps.len() > 0 {
        lemma_placements_contact_bound(ps.drop_last(), x, y, w, h, kerf);
        lemma_placement_contact_bound(x, y, w, h, ps.last(), kerf);
    }
}

impl Optimizer {
    /// Contact length of the candidate with the panel border and with every
    /// existing placement; higher means better packed.
    #[verifier::rlimit(50)]
    pub(crate) fn calculate_contact_score(
        &self,
        x: i64,
        y: i64,
        width: i64,
        height: i64,
        layout: &PanelLayout,
    ) -> (c: i128)
        requires
            self.wf(),
            layout_bounded(*layout),
            0 <= x <= 4 * MAX_DIM,
            0 <= y <= 4 * MAX_DIM,
            0 <= width <= 4 * MAX_DIM,
            0 <= height <= 4 * MAX_DIM,
        ensures
            c == spec_contact_score(x as int, y as int, width as int, height as int, *layout, self.kerf()),
            0 <= c <= 16 * MAX_DIM * (layout.placements@.len() + 1),
    {
        let kerf = self.request.cut_width;
        let mut contact: i128 = 0;

        // Contact with the panel edges (trimming boundary).
        if x == layout.trimming {
            contact += height as i128;
        }
        if y == layout.trimming {
            contact += width as i128;
        }
        let right_boundary = layout.width - layout.trimming;
        let top_boundary = layout.height - layout.trimming;
        if x + width == right_boundary {
            contact += height as i128;
        }
        if y + height == top_boundary {
            contact += width as i128;
        }
        assert(contact == spec_edge_contact(x as int, y as int, width as int, height as int, *layout));

        let n = layout.placements.len();
        let mut i: usize = 0;
        while i < n
            invariant
                self.wf(),
                layout_bounded(*layout),
                n == layout.placements@.len(),
                0 <= i <= n,
                kerf == self.request.cut_width,
                0 <= x <= 4 * MAX_DIM,
                0 <= y <= 4 * MAX_DIM,
                0 <= width <= 4 * MAX_DIM,
                0 <= height <= 4 * MAX_DIM,
                contact == spec_edge_contact(x as int, y as int, width as int, height as int, *layout)
                    + spec_placements_contact(
                    layout.placements@.take(i as int),
                    x as int,
                    y as int,
                    width as int,
                    height as int,
                    self.kerf(),
                ),
            decreases n - i,
        {
            proof {
                assert forall|j: int| 0 <= j < layout.placements@.take(i as int).len()
                    implies placement_bounded(#[trigger] layout.placements@.take(i as int)[j]) by {
                    assert(layout.placements@.take(i as int)[j] == layout.placements@[j]);
                }
                lemma_placements_contact_bound(
                    layout.placements@.take(i as int),
                    x as int,
                    y as int,
                    width as int,
                    height as int,
                    self.kerf(),
                );
                assert(0 <= spec_edge_contact(x as int, y as int, width as int, height as int, *layout)
                    <= 16 * MAX_DIM);
            }
            let p = &layout.placements[i];
            let p_right = p.x + p.width;
            let p_top = p.y + p.height;
            let mut step: i64 = 0;

            // Vertical overlap for left/right adjacency.
            let v_lo = if y >= p.y { y } else { p.y };
            let v_hi = if y + height <= p_top { y + height } else { p_top };
            if v_hi > v_lo {
                let v_overlap = v_hi - v_lo;
                if x == p_right + kerf {
                    step += v_overlap;
                }
                if x + width + kerf == p.x {
                    step += v_overlap;
                }
            }

            // Horizontal overlap for top/bottom adjacency.
            let h_lo = if x >= p.x { x } else { p.x };
            let h_hi = if x + width <= p_right { x + width } else { p_right };
            if h_hi > h_lo {
                let h_overlap = h_hi - h_lo;
                if y == p_top + kerf {
                    step += h_overlap;
                }
                if y + height + kerf == p.y {
                    step += h_overlap;
                }
            }

            assert(step == spec_placement_contact(
                x as int,
                y as int,
                width as int,
                height as int,
                layout.placements@[i as int],
                self.kerf(),
            ));
            assert(0 <= step <= 16 * MAX_DIM);
            contact += step as i128;

            proof {
                assert(layout.placements@.take(i + 1).drop_last() =~= layout.placements@.take(
                    i as int,
                ));
                assert(layout.placements@.take(i + 1).last() == layout.placements@[i as int]);
                lemma_placement_contact_bound(
                    x as int,
                    y as int,
                    width as int,
                    height as int,
                    layout.placements@[i as int],
                    self.kerf(),
                );
            }
            i += 1;
        }
        proof {
            assert(layout.placements@.take(n as int) =~= layout.placements@);
            lemma_placements_contact_bound(
                layout.placements@,
                x as int,
                y as int,
                width as int,
                height as int,
                self.kerf(),
            );
            assert(0 <= spec_edge_contact(x as int, y as int, width as int, height as int, *layout)
                <= 16 * MAX_DIM);
            assert(16 * MAX_DIM * (layout.placements@.len() + 1) == 16 * MAX_DIM
                * layout.placements@.len() + 16 * MAX_DIM) by (nonlinear_arith);
        }
        contact
    }

    /// The blended score of placing a `width` by `height` piece at `(x, y)`
    /// inside the free rectangle `area`; lower is better.
    pub(crate) fn calculate_placement_score(
        &self,
        x: i64,
        y: i64,
        width: i64,
        height: i64,
        area: &UnusedArea,
        layout: &PanelLayout,
    ) -> (s: i128)
        requires
            self.wf(),
            layout_bounded(*layout),
            area_bounded(*area),
            0 <= x <= 4 * MAX_DIM,
            0 <= y <= 4 * MAX_DIM,
            0 <= width <= 4 * MAX_DIM,
            0 <= height <= 4 * MAX_DIM,
        ensures
            s == spec_placement_score(
                x as int,
                y as int,
                width as int,
                height as int,
                *area,
                *layout,
                self.kerf(),
                self.request.min_initial_usage,
                self.request.optimize_for_reusable_remnants,
            ),
            -10_000_000_000_000_000_000_000_000_000_000 <= s
                <= 10_000_000_000_000_000_000_000_000_000_000,
    {
        let kerf = self.request.cut_width;

        let position_score: i128 = if self.request.min_initial_usage {
            (y as i128) * 1000 + (x as i128)
        } else {
            (y as i128) * 100000 + 10 * (x as i128)
        };

        let width_leftover = area.width - width - kerf;
        let height_leftover = area.height - height - kerf;

        let sliver_penalty: i128 = (if width_leftover > 0 && width_leftover < 50 {
            ((50 - width_leftover) as i128) * 100
        } else {
            0
        }) + (if height_leftover > 0 && height_leftover < 50 {
            ((50 - height_leftover) as i128) * 100
        } else {
            0
        });

        let contact_score = self.calculate_contact_score(x, y, width, height, layout);
        proof {
            assert(layout.placements.len() == layout.placements@.len());
            assert(16 * MAX_DIM * (layout.placements@.len() + 1) <= 16 * MAX_DIM * (usize::MAX
                + 1)) by (nonlinear_arith)
                requires
                    layout.placements@.len() <= usize::MAX,
            ;
            assert(0 <= contact_score <= 16 * MAX_DIM * (usize::MAX + 1));
            assert(usize::MAX <= 0xffffffffffffffff);
            assert(5000 * contact_score <= 9_000_000_000_000_000_000_000_000_000_000)
                by (nonlinear_arith)
                requires
                    0 <= contact_score,
                    contact_score <= 16 * MAX_DIM * (usize::MAX + 1),
                    usize::MAX <= 0xffffffffffffffff,
            ;
        }

        if self.request.min_initial_usage {
            let lw = if width_leftover > 0 { width_leftover } else { 0 };
            let lh = if height_leftover > 0 { height_leftover } else { 0 };
            proof {
                assert(0 <= lw <= 4 * MAX_DIM);
                assert(0 <= lh <= 4 * MAX_DIM);
                assert(lw * lh <= 16 * MAX_DIM * MAX_DIM) by (nonlinear_arith)
                    requires
                        0 <= lw <= 4 * MAX_DIM,
                        0 <= lh <= 4 * MAX_DIM,
                ;
                assert(area.width * area.height <= 16 * MAX_DIM * MAX_DIM) by (nonlinear_arith)
                    requires
                        0 <= area.width <= 4 * MAX_DIM,
                        0 <= area.height <= 4 * MAX_DIM,
                ;
            }
            let denom_raw = (area.width as i128) * (area.height as i128);
            let denom = if denom_raw > 1 { denom_raw } else { 1 };
            let fit_num = (lw as i128) * (lh as i128) * 100000;
            proof {
                assert(lw * lh <= denom) by (nonlinear_arith)
                    requires
                        0 <= lw,
                        0 <= lh,
                        lw <= area.width,
                        lh <= area.height,
                        0 <= area.width,
                        0 <= area.height,
                        denom_raw == area.width * area.height,
                        denom == if denom_raw > 1 { denom_raw } else { 1 },
                ;
                assert(0 <= fit_num <= 100000 * denom) by (nonlinear_arith)
                    requires
                        0 <= lw,
                        0 <= lh,
                        lw * lh <= denom,
                        1 <= denom,
                        fit_num == lw * lh * 100000,
                ;
                assert(0 <= fit_num / denom <= 100000) by (nonlinear_arith)
                    requires
                        0 <= fit_num <= 100000 * denom,
                        1 <= denom,
                ;
            }
            let fit_scaled = fit_num / denom;
            let height_bonus: i128 = if height_leftover <= 10 {
                -500000
            } else if height_leftover < 100 {
                -200000
            } else {
                0
            };
            let width_bonus: i128 = if width_leftover <= 10 {
                -300000
            } else if width_leftover < 100 {
                -100000
            } else {
                0
            };
            position_score + fit_scaled - 5000 * contact_score + sliver_penalty + height_bonus
                + width_bonus
        } else if self.request.optimize_for_reusable_remnants {
            position_score - 500 * contact_score + 2 * sliver_penalty
        } else {
            position_score - 2000 * contact_score + sliver_penalty
        }
    }
}

} // verus!

//! The optimizer itself: request validation and construction.
//!
//! The packing methods live in the sibling modules; they are all methods on
//! [`Optimizer`] and assume a validated request.

use vstd::prelude::*;

use crate::types::{
    request_bounds, request_valid, OptimizationRequest, OptimizerError, PanelType,
};

verus! {

/// Packs rectangular items on panels using a best-fit decreasing heuristic.
pub struct Optimizer {
    pub request: OptimizationRequest,
}

impl Optimizer {
    /// The optimizer only ever holds a validated request.
    pub open spec fn wf(&self) -> bool {
        request_valid(self.request)
    }

    /// The saw kerf of the request.
    pub open spec fn kerf(&self) -> int {
        self.request.cut_width as int
    }
}

/// Does the panel type keep a positive usable area after trimming?
pub open spec fn panel_trimming_valid(p: PanelType) -> bool {
    &&& p.trimming >= 0
    &&& p.width - 2 * p.trimming >= 1
    &&& p.height - 2 * p.trimming >= 1
}

/// The message `Optimizer::new` rejects the request with, if any: the first
/// violation in validation order.
pub open spec fn validation_error(r: OptimizationRequest) -> Option<Seq<char>> {
    if r.panel_types@.len() == 0 {
        Some("At least one panel type must be provided"@)
    } else if r.items@.len() == 0 {
        Some("At least one item must be provided"@)
    } else if exists|i: int| 0 <= i < r.panel_types@.len() && !panel_trimming_valid(
        #[trigger] r.panel_types@[i],
    ) {
        let i = first_invalid_panel(r, 0);
        let p = r.panel_types@[i];
        if p.trimming < 0 {
            Some("Panel '"@ + p.id@ + "' has negative trimming"@)
        } else {
            Some("Panel '"@ + p.id@ + "' becomes unusable after applying trimming"@)
        }
    } else {
        None
    }
}

/// Index of the first panel type at or after `from` that fails validation.
pub open spec fn first_invalid_panel(r: OptimizationRequest, from: int) -> int
    decreases r.panel_types@.len() - from,
{
    if from < 0 || from >= r.panel_types@.len() {
        r.panel_types@.len() as int
    } else if !panel_trimming_valid(r.panel_types@[from]) {
        from
    } else {
        first_invalid_panel(r, from + 1)
    }
}

impl Optimizer {
    /// Validates the request and builds a new optimizer instance.
    ///
    /// Fails exactly when the request has no panel types, no items, a panel
    /// with negative trimming, or a panel whose trimming leaves no usable
    /// area; the message names the first violation in that order.
    pub fn new(request: OptimizationRequest) -> (r: Result<Self, OptimizerError>)
        requires
            request_bounds(request),
        ensures
            match r {
                Ok(o) => o.request == request && o.wf() && validation_error(request).is_none(),
                Err(e) => {
                    &&& validation_error(request).is_some()
                    &&& !request_valid(request)
                    &&& e matches OptimizerError::InvalidInput(m) && m@
                        == validation_error(request).unwrap()
                },
            },
    {
        if request.panel_types.len() == 0 {
            return Err(
                OptimizerError::InvalidInput(
                    String::from_str("At least one panel type must be provided"),
                ),
            );
        }
        if request.items.len() == 0 {
            return Err(
                OptimizerError::InvalidInput(String::from_str("At least one item must be provided")),
            );
        }
        let n = request.panel_types.len();
        let mut idx: usize = 0;
        while idx < n
            invariant
                n == request.panel_types@.len(),
                n > 0,
                request.items@.len() > 0,
                0 <= idx <= n,
                request_bounds(request),
                forall|j: int| 0 <= j < idx ==> panel_trimming_valid(#[trigger] request.panel_types@[j]),
            decreases n - idx,
        {
            let panel = &request.panel_types[idx];
            if panel.trimming < 0 {
                proof {
                    assert(!panel_trimming_valid(request.panel_types@[idx as int]));
                    lemma_first_invalid_is(request, idx as int);
                }
                let msg = String::from_str("Panel '").concat(panel.id.as_str()).concat(
                    "' has negative trimming",
                );
                proof {
                    reveal_strlit("Panel '");
                    reveal_strlit("' has negative trimming");
                    assert(first_invalid_panel(request, 0) == idx as int);
                    assert(validation_error(request).is_some());
                    assert(validation_error(request).unwrap() =~= "Panel '"@
                        + request.panel_types@[idx as int].id@ + "' has negative trimming"@);
                    assert(msg@ =~= "Panel '"@ + request.panel_types@[idx as int].id@
                        + "' has negative trimming"@);
                }
                return Err(OptimizerError::InvalidInput(msg));
            }
            let usable_width = panel.width - panel.trimming * 2;
            let usable_height = panel.height - panel.trimming * 2;
            if usable_width <= 0 || usable_height <= 0 {
                proof {
                    assert(!panel_trimming_valid(request.panel_types@[idx as int]));
                    lemma_first_invalid_is(request, idx as int);
                }
                let msg = String::from_str("Panel '").concat(panel.id.as_str()).concat(
                    "' becomes unusable after applying trimming",
                );
                proof {
                    reveal_strlit("Panel '");
                    reveal_strlit("' becomes unusable after applying trimming");
                    assert(first_invalid_panel(request, 0) == idx as int);
                    assert(validation_error(request).is_some());
                    assert(validation_error(request).unwrap() =~= "Panel '"@
                        + request.panel_types@[idx as int].id@
                        + "' becomes unusable after applying trimming"@);
                    assert(msg@ =~= "Panel '"@ + request.panel_types@[idx as int].id@
                        + "' becomes unusable after applying trimming"@);
                }
                return Err(OptimizerError::InvalidInput(msg));
            }
            idx += 1;
        }
        Ok(Self { request })
    }
}

/// When the panels before `i` validate and panel `i` does not, `i` is the
/// first invalid panel.
proof fn lemma_first_invalid_is(r: OptimizationRequest, i: int)
    requires
        0 <= i < r.panel_types@.len(),
        !panel_trimming_valid(r.panel_types@[i]),
        forall|j: int| 0 <= j < i ==> panel_trimming_valid(#[trigger] r.panel_types@[j]),
    ensures
        first_invalid_panel(r, 0) == i,
{
    lemma_first_invalid_step(r, 0, i);
}

proof fn lemma_first_invalid_step(r: OptimizationRequest, from: int, i: int)
    requires
        0 <= from <= i < r.panel_types@.len(),
        !panel_trimming_valid(r.panel_types@[i]),
        forall|j: int| from <= j < i ==> panel_trimming_valid(#[trigger] r.panel_types@[j]),
    ensures
        first_invalid_panel(r, from) == i,
    decreases i - from,
{
    if from < i {
        lemma_first_invalid_step(r, from + 1, i);
    }
}

} // verus!

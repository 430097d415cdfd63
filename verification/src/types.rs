//! Data model of the optimizer: panel types, items, requests, placements,
//! layouts and summary statistics.
//!
//! All dimensions are integers in one common unit; see the crate doc.

use vstd::prelude::*;

verus! {

/// Largest accepted linear dimension (width, height, trimming, cut width).
/// Keeps all of the engine's arithmetic comfortably inside `i64`.
pub const MAX_DIM: i64 = 1_000_000;

/// Largest accepted total number of item copies in one request.
pub const MAX_TOTAL_ITEMS: u64 = 1_000_000;

/// An available panel size, with a uniform edge trimming and a pool of
/// optional bonus items that may be added to panels of this type.
pub struct PanelType {
    pub id: String,
    pub width: i64,
    pub height: i64,
    /// Uniform border trimmed from every edge before the panel is usable.
    pub trimming: i64,
    /// Optional items that may be placed on panels of this type when doing
    /// so reduces waste.
    pub optional_items: Vec<OptionalItem>,
}

/// An item to be cut, with a required quantity.
pub struct Item {
    pub id: String,
    pub width: i64,
    pub height: i64,
    pub quantity: u32,
    pub can_rotate: bool,
}

/// An item the engine is permitted to add to a panel of a given type if
/// doing so reduces waste. Higher priority entries are tried first.
pub struct OptionalItem {
    pub id: String,
    pub width: i64,
    pub height: i64,
    pub quantity: u32,
    pub can_rotate: bool,
    pub priority: i64,
}

/// What the caller provides.
pub struct OptimizationRequest {
    /// Saw kerf: material removed between adjacent pieces, reserved on the
    /// right and top side of every placement.
    pub cut_width: i64,
    pub panel_types: Vec<PanelType>,
    pub items: Vec<Item>,
    /// Fill early panels as completely as possible before opening new ones.
    pub min_initial_usage: bool,
    /// Minimum area for a leftover rectangle to count as reusable.
    pub min_reusable_remnant_size: Option<i64>,
    /// Prefer leaving large contiguous leftover areas.
    pub optimize_for_reusable_remnants: bool,
}

/// Placement of one item copy on a panel. `width` and `height` are the
/// dimensions as placed: swapped relative to the item when `rotated`.
pub struct Placement {
    pub item_id: String,
    pub x: i64,
    pub y: i64,
    pub width: i64,
    pub height: i64,
    pub rotated: bool,
}

/// A rectangle of space on a panel that no placement uses.
#[derive(Clone, Copy)]
pub struct UnusedArea {
    pub x: i64,
    pub y: i64,
    pub width: i64,
    pub height: i64,
}

/// The cutting plan for one physical panel.
pub struct PanelLayout {
    pub panel_type_id: String,
    /// Sequence number among the panels of the same type, starting at 1.
    pub panel_number: u32,
    /// Chosen panel dimensions: the type's, possibly swapped.
    pub width: i64,
    pub height: i64,
    /// Trimming margin applied on every side of this panel.
    pub trimming: i64,
    pub placements: Vec<Placement>,
    /// Leftover rectangles, populated on the final output only.
    pub unused_areas: Vec<UnusedArea>,
}

/// How many panels of one type the plan consumes.
pub struct PanelCount {
    pub panel_type_id: String,
    pub count: u32,
}

/// Aggregate statistics over all layouts. The percentage fields are in
/// hundredths of a percent, so 10000 means 100%. The three optional fields
/// are present exactly when the request set `min_reusable_remnant_size`.
pub struct Summary {
    pub total_panels: u32,
    pub total_area: i64,
    pub used_area: i64,
    pub waste_area: i64,
    pub waste_percentage: i64,
    /// Area of leftovers large enough to be reused.
    pub reusable_remnant_area: Option<i64>,
    /// Waste excluding reusable remnants.
    pub actual_waste_area: Option<i64>,
    /// Waste percentage excluding reusable remnants.
    pub actual_waste_percentage: Option<i64>,
}

/// What the optimizer returns.
pub struct OptimizationResult {
    /// How many panels of each used type are needed; one entry per type.
    pub panels_required: Vec<PanelCount>,
    pub layouts: Vec<PanelLayout>,
    pub summary: Summary,
    /// Identifiers of the optional items that were placed; an id repeats
    /// when several copies of the same optional item were placed.
    pub optional_items_used: Vec<String>,
}

/// Why an optimization was refused.
#[derive(Debug)]
pub enum OptimizerError {
    /// Some required item fits no panel type in any orientation.
    CannotFitAll,
    /// A structural violation of the request, described by the message.
    InvalidInput(String),
}

impl OptimizerError {
    /// A human-readable description of the error.
    pub fn message(&self) -> (r: String)
        ensures
            match self {
                OptimizerError::CannotFitAll => r@ =~= "Cannot fit all items - need more/larger panels"@,
                OptimizerError::InvalidInput(m) => r@ =~= "Invalid input: "@ + m@,
            },
    {
        match self {
            OptimizerError::CannotFitAll => {
                String::from_str("Cannot fit all items - need more/larger panels")
            },
            OptimizerError::InvalidInput(m) => {
                String::from_str("Invalid input: ").concat(m.as_str())
            },
        }
    }
}

/// Both dimensions positive and within the accepted bound.
pub open spec fn dims_ok(w: int, h: int) -> bool {
    1 <= w <= MAX_DIM && 1 <= h <= MAX_DIM
}

pub open spec fn item_ok(it: Item) -> bool {
    dims_ok(it.width as int, it.height as int)
}

pub open spec fn optional_item_ok(it: OptionalItem) -> bool {
    dims_ok(it.width as int, it.height as int)
}

/// Dimension bounds of a panel type; its trimming may still be invalid.
pub open spec fn panel_type_bounds(p: PanelType) -> bool {
    &&& 1 <= p.width <= MAX_DIM
    &&& 1 <= p.height <= MAX_DIM
    &&& -MAX_DIM <= p.trimming <= MAX_DIM
    &&& forall|i: int|
        0 <= i < p.optional_items@.len() ==> optional_item_ok(#[trigger] p.optional_items@[i])
}

/// A panel type whose trimming leaves a usable area.
pub open spec fn panel_type_valid(p: PanelType) -> bool {
    &&& panel_type_bounds(p)
    &&& 0 <= p.trimming
    &&& p.width - 2 * p.trimming >= 1
    &&& p.height - 2 * p.trimming >= 1
}

/// Total number of item copies a request asks for.
pub open spec fn total_quantity(items: Seq<Item>) -> int
    decreases items.len(),
{
    if items.len() == 0 {
        0
    } else {
        total_quantity(items.drop_last()) + items.last().quantity as int
    }
}

/// Machine bounds every request must respect before validation.
pub open spec fn request_bounds(r: OptimizationRequest) -> bool {
    &&& 0 <= r.cut_width <= MAX_DIM
    &&& forall|i: int|
        0 <= i < r.panel_types@.len() ==> panel_type_bounds(#[trigger] r.panel_types@[i])
    &&& forall|i: int| 0 <= i < r.items@.len() ==> item_ok(#[trigger] r.items@[i])
    &&& total_quantity(r.items@) <= MAX_TOTAL_ITEMS
    &&& match r.min_reusable_remnant_size {
        Some(v) => 0 <= v,
        None => true,
    }
}

/// A request that passed validation: non-empty inputs and usable panels.
pub open spec fn request_valid(r: OptimizationRequest) -> bool {
    &&& request_bounds(r)
    &&& r.panel_types@.len() > 0
    &&& r.items@.len() > 0
    &&& forall|i: int|
        0 <= i < r.panel_types@.len() ==> panel_type_valid(#[trigger] r.panel_types@[i])
}

} // verus!

//! A two-dimensional rectangular cutting-stock optimizer.
//!
//! Given rectangular items with required quantities and a set of available
//! panel types, the engine produces concrete panel layouts that place every
//! item without overlap, honouring a saw kerf (cut width) between adjacent
//! pieces and an optional 90-degree rotation per item. Leftover rectangles
//! large enough to be reused are reported as reusable remnants.
//!
//! All linear dimensions are exact integers in one unit (conventionally
//! millimetres); every area is a product of two such lengths. Working with
//! integers makes the geometry exact, so the engine needs no floating-point
//! tolerances and its central invariants are machine-checked:
//! placements stay inside the usable area of their panel, placements on one
//! panel never overlap, every requested item is placed exactly once, and the
//! reported statistics agree with the layouts.

pub mod driver;
pub mod geom;
pub mod bfd;
pub mod cloning;
pub mod items;
pub mod model;
pub mod optional;
pub mod optimizer;
pub mod output;
pub mod packer;
pub mod reduce;
pub mod score;
pub mod summary;
pub mod text;
pub mod tracker;
pub mod types;

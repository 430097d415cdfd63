use optimizer_core::optimizer::Optimizer;
use optimizer_core::types::{Item, OptimizationRequest, OptimizerError, PanelType};

fn request(
    cut_width: i64,
    panel_types: Vec<PanelType>,
    items: Vec<Item>,
) -> OptimizationRequest {
    OptimizationRequest {
        cut_width,
        panel_types,
        items,
        min_initial_usage: false,
        min_reusable_remnant_size: None,
        optimize_for_reusable_remnants: false,
    }
}

fn panel(id: &str, width: i64, height: i64) -> PanelType {
    PanelType {
        id: id.to_string(),
        width,
        height,
        trimming: 0,
        optional_items: vec![],
    }
}

fn item(id: &str, width: i64, height: i64, quantity: u32, can_rotate: bool) -> Item {
    Item {
        id: id.to_string(),
        width,
        height,
        quantity,
        can_rotate,
    }
}

#[test]
fn empty_panel_types_is_invalid_input() {
    let req = request(3, vec![], vec![item("a", 10, 10, 1, false)]);
    match Optimizer::new(req) {
        Err(OptimizerError::InvalidInput(m)) => {
            assert_eq!(m, "At least one panel type must be provided");
        }
        _ => panic!("expected InvalidInput"),
    }
}

#[test]
fn empty_items_is_invalid_input() {
    let req = request(3, vec![panel("p", 100, 100)], vec![]);
    match Optimizer::new(req) {
        Err(OptimizerError::InvalidInput(m)) => {
            assert_eq!(m, "At least one item must be provided");
        }
        _ => panic!("expected InvalidInput"),
    }
}

#[test]
fn negative_trimming_is_invalid_input() {
    let mut p = panel("edge", 100, 100);
    p.trimming = -1;
    let req = request(3, vec![p], vec![item("a", 10, 10, 1, false)]);
    match Optimizer::new(req) {
        Err(e @ OptimizerError::InvalidInput(_)) => {
            assert_eq!(e.message(), "Invalid input: Panel 'edge' has negative trimming");
        }
        _ => panic!("expected InvalidInput"),
    }
}

#[test]
fn unusable_trimming_is_invalid_input() {
    let mut p = panel("thin", 100, 100);
    p.trimming = 50;
    let req = request(3, vec![p], vec![item("a", 10, 10, 1, false)]);
    match Optimizer::new(req) {
        Err(OptimizerError::InvalidInput(m)) => {
            assert_eq!(m, "Panel 'thin' becomes unusable after applying trimming");
        }
        _ => panic!("expected InvalidInput"),
    }
}

#[test]
fn exact_fit_leaves_zero_waste() {
    let req = request(
        3,
        vec![panel("p", 100, 100)],
        vec![item("slab", 100, 100, 1, false)],
    );
    let optimizer = Optimizer::new(req).unwrap();
    let result = optimizer.optimize().unwrap();
    assert_eq!(result.summary.total_panels, 1);
    assert_eq!(result.summary.total_area, 10000);
    assert_eq!(result.summary.used_area, 10000);
    assert_eq!(result.summary.waste_area, 0);
    assert_eq!(result.summary.waste_percentage, 0);
    assert!(result.summary.reusable_remnant_area.is_none());
    assert!(result.summary.actual_waste_area.is_none());
    assert!(result.summary.actual_waste_percentage.is_none());
}

#[test]
fn half_fill_gives_exact_percentage() {
    let req = request(
        0,
        vec![panel("p", 100, 100)],
        vec![item("half", 50, 100, 1, false)],
    );
    let optimizer = Optimizer::new(req).unwrap();
    let result = optimizer.optimize().unwrap();
    assert_eq!(result.summary.total_panels, 1);
    assert_eq!(result.summary.used_area, 5000);
    assert_eq!(result.summary.waste_area, 5000);
    // Hundredths of a percent: half the panel is waste.
    assert_eq!(result.summary.waste_percentage, 5000);
}

#[test]
fn oversized_item_cannot_fit() {
    let req = request(
        3,
        vec![panel("p", 100, 100)],
        vec![item("huge", 200, 200, 1, true)],
    );
    let optimizer = Optimizer::new(req).unwrap();
    match optimizer.optimize() {
        Err(OptimizerError::CannotFitAll) => {}
        _ => panic!("expected CannotFitAll"),
    }
}

#[test]
fn cannot_fit_all_message() {
    let e = OptimizerError::CannotFitAll;
    assert_eq!(e.message(), "Cannot fit all items - need more/larger panels");
}

#[test]
fn rotation_is_used_when_only_the_rotated_orientation_fits() {
    // A panel mostly filled by one wide piece: the remaining strip to its
    // right is 398 wide, so a 600 x 300 shelf fits only rotated.
    let req = request(
        2,
        vec![panel("p", 1000, 700)],
        vec![item("shelf", 600, 300, 1, true)],
    );
    let optimizer = Optimizer::new(req).unwrap();
    let layout = optimizer_core::types::PanelLayout {
        panel_type_id: "p".to_string(),
        panel_number: 1,
        width: 1000,
        height: 700,
        trimming: 0,
        placements: vec![optimizer_core::types::Placement {
            item_id: "big".to_string(),
            x: 0,
            y: 0,
            width: 600,
            height: 700,
            rotated: false,
        }],
        unused_areas: vec![],
    };
    let placed = optimizer
        .try_place_item(&item("shelf", 600, 300, 1, true), &layout)
        .expect("the rotated orientation fits");
    assert!(placed.rotated);
    assert_eq!(placed.width, 300);
    assert_eq!(placed.height, 600);
}

#[test]
fn every_expanded_item_is_placed_exactly_once() {
    let req = request(
        3,
        vec![panel("p", 500, 500)],
        vec![item("a", 100, 200, 3, true), item("b", 50, 60, 2, false)],
    );
    let optimizer = Optimizer::new(req).unwrap();
    let result = optimizer.optimize().unwrap();

    let mut placed: Vec<String> = result
        .layouts
        .iter()
        .flat_map(|l| l.placements.iter().map(|p| p.item_id.clone()))
        .collect();
    placed.sort();
    let mut expected = vec![
        "a_1".to_string(),
        "a_2".to_string(),
        "a_3".to_string(),
        "b_1".to_string(),
        "b_2".to_string(),
    ];
    expected.sort();
    assert_eq!(placed, expected);
}

#[test]
fn placements_stay_inside_and_apart() {
    let req = request(
        3,
        vec![
            PanelType {
                id: "trimmed".to_string(),
                width: 600,
                height: 400,
                trimming: 10,
                optional_items: vec![],
            },
        ],
        vec![item("part", 120, 80, 6, true)],
    );
    let optimizer = Optimizer::new(req).unwrap();
    let result = optimizer.optimize().unwrap();

    for layout in &result.layouts {
        let t = layout.trimming;
        for p in &layout.placements {
            assert!(p.x >= t && p.y >= t);
            assert!(p.x + p.width <= layout.width - t);
            assert!(p.y + p.height <= layout.height - t);
        }
        for (i, p) in layout.placements.iter().enumerate() {
            for (j, q) in layout.placements.iter().enumerate() {
                if i != j {
                    // The pieces themselves never overlap.
                    let apart = p.x + p.width <= q.x
                        || q.x + q.width <= p.x
                        || p.y + p.height <= q.y
                        || q.y + q.height <= p.y;
                    assert!(apart);
                }
            }
        }
    }
}

#[test]
fn panel_numbers_are_contiguous_per_type() {
    let req = request(
        3,
        vec![panel("small", 250, 250)],
        vec![item("block", 240, 240, 5, false)],
    );
    let optimizer = Optimizer::new(req).unwrap();
    let result = optimizer.optimize().unwrap();

    assert_eq!(result.summary.total_panels, 5);
    let mut numbers: Vec<u32> = result.layouts.iter().map(|l| l.panel_number).collect();
    numbers.sort();
    assert_eq!(numbers, vec![1, 2, 3, 4, 5]);

    let count = result
        .panels_required
        .iter()
        .find(|c| c.panel_type_id == "small")
        .map(|c| c.count)
        .unwrap();
    assert_eq!(count, 5);
    let total: u32 = result.panels_required.iter().map(|c| c.count).sum();
    assert_eq!(total as usize, result.layouts.len());
}

#[test]
fn reusable_remnant_never_exceeds_waste() {
    let mut req = request(
        3,
        vec![panel("p", 800, 800)],
        vec![item("piece", 300, 250, 2, true)],
    );
    req.min_reusable_remnant_size = Some(5000);
    let optimizer = Optimizer::new(req).unwrap();
    let result = optimizer.optimize().unwrap();

    let reusable = result.summary.reusable_remnant_area.unwrap();
    let actual = result.summary.actual_waste_area.unwrap();
    assert!(reusable <= result.summary.waste_area);
    assert!(actual >= 0);
    assert_eq!(actual, result.summary.waste_area - reusable);
    assert_eq!(
        result.summary.total_area - result.summary.used_area,
        result.summary.waste_area
    );
}

#[test]
fn optional_items_reduce_waste_and_are_reported() {
    let filler = optimizer_core::types::OptionalItem {
        id: "filler".to_string(),
        width: 200,
        height: 200,
        quantity: 1,
        can_rotate: false,
        priority: 5,
    };
    let req = request(
        0,
        vec![PanelType {
            id: "p".to_string(),
            width: 1000,
            height: 1000,
            trimming: 0,
            optional_items: vec![filler],
        }],
        vec![item("main", 500, 1000, 1, false)],
    );
    let optimizer = Optimizer::new(req).unwrap();
    let result = optimizer.optimize().unwrap();

    // Half the panel is waste before backfill, so fillers are added.
    assert!(!result.optional_items_used.is_empty());
    for used in &result.optional_items_used {
        assert_eq!(used, "filler");
    }
    let fillers_placed = result
        .layouts
        .iter()
        .flat_map(|l| l.placements.iter())
        .filter(|p| p.item_id == "filler")
        .count();
    assert_eq!(fillers_placed, result.optional_items_used.len());
}

#[test]
fn backfill_on_its_own_output_is_a_no_op() {
    // The backfill loop stops when a full pass places nothing; running it
    // again on its own output therefore changes nothing.
    let filler = optimizer_core::types::OptionalItem {
        id: "filler".to_string(),
        width: 200,
        height: 200,
        quantity: 1,
        can_rotate: false,
        priority: 5,
    };
    let req = request(
        0,
        vec![PanelType {
            id: "p".to_string(),
            width: 1000,
            height: 1000,
            trimming: 0,
            optional_items: vec![filler],
        }],
        vec![item("main", 500, 1000, 1, false)],
    );
    let optimizer = Optimizer::new(req).unwrap();
    let result = optimizer.optimize().unwrap();
    let placements_before: usize = result.layouts.iter().map(|l| l.placements.len()).sum();

    let (again, used_again) = optimizer.try_add_optional_items(result.layouts);
    let placements_after: usize = again.iter().map(|l| l.placements.len()).sum();
    assert!(used_again.is_empty());
    assert_eq!(placements_before, placements_after);
}

#[test]
fn zero_quantity_items_produce_an_empty_plan() {
    let req = request(
        3,
        vec![panel("p", 100, 100)],
        vec![item("ghostly", 10, 10, 0, false)],
    );
    let optimizer = Optimizer::new(req).unwrap();
    let result = optimizer.optimize().unwrap();
    assert_eq!(result.summary.total_panels, 0);
    assert_eq!(result.layouts.len(), 0);
    assert_eq!(result.summary.total_area, 0);
    assert_eq!(result.summary.waste_percentage, 0);
    assert!(result.panels_required.is_empty());
}

use optimizer_core::optimizer::Optimizer;
use optimizer_core::types::{
    Item, OptimizationRequest, PanelLayout, PanelType, Placement,
};

fn request(
    cut_width: i64,
    panel_types: Vec<PanelType>,
    items: Vec<Item>,
) -> OptimizationRequest {
    OptimizationRequest {
        cut_width,
        panel_types,
        items,
        min_initial_usage: false,
        min_reusable_remnant_size: None,
        optimize_for_reusable_remnants: false,
    }
}

fn panel(id: &str, width: i64, height: i64) -> PanelType {
    PanelType {
        id: id.to_string(),
        width,
        height,
        trimming: 0,
        optional_items: vec![],
    }
}

fn item(id: &str, width: i64, height: i64, quantity: u32, can_rotate: bool) -> Item {
    Item {
        id: id.to_string(),
        width,
        height,
        quantity,
        can_rotate,
    }
}

fn placement(item_id: &str, x: i64, y: i64, width: i64, height: i64, rotated: bool) -> Placement {
    Placement {
        item_id: item_id.to_string(),
        x,
        y,
        width,
        height,
        rotated,
    }
}

#[test]
fn test_simple_optimization() {
    let request = request(
        3,
        vec![panel("panel_a", 100, 100)],
        vec![item("item1", 20, 30, 2, true), item("item2", 40, 50, 1, false)],
    );

    let optimizer = Optimizer::new(request).unwrap();
    let result = optimizer.optimize().unwrap();

    assert!(result.summary.total_panels >= 1);
    assert!(result.summary.waste_percentage >= 0);
    assert!(result.summary.waste_percentage <= 10000);
    assert_eq!(result.layouts.len(), result.summary.total_panels as usize);
}

#[test]
fn test_reusable_remnant_size() {
    let mut request = request(
        3,
        vec![panel("panel_a", 1000, 1000)],
        vec![item("item1", 200, 200, 1, false)],
    );
    request.min_reusable_remnant_size = Some(10000);

    let optimizer = Optimizer::new(request).unwrap();
    let result = optimizer.optimize().unwrap();

    assert!(result.summary.reusable_remnant_area.is_some());
    assert!(result.summary.actual_waste_area.is_some());
    assert!(result.summary.actual_waste_percentage.is_some());

    let reusable = result.summary.reusable_remnant_area.unwrap();
    assert!(reusable > 0);

    let total_waste = result.summary.waste_area;
    let actual_waste = result.summary.actual_waste_area.unwrap();
    assert!(actual_waste < total_waste);
}

#[test]
fn test_optimize_for_reusable_remnants() {
    let mut request = request(
        3,
        vec![panel("panel_a", 1000, 1000)],
        vec![item("item1", 300, 300, 2, false)],
    );
    request.optimize_for_reusable_remnants = true;

    let optimizer = Optimizer::new(request).unwrap();
    let result = optimizer.optimize().unwrap();

    assert!(result.summary.total_panels >= 1);
}

#[test]
fn test_min_initial_usage_packs_single_panel() {
    let mut request = request(
        2,
        vec![panel("panel_a", 2400, 1200)],
        vec![item("shelf", 600, 300, 8, false)],
    );
    request.min_initial_usage = true;

    let optimizer = Optimizer::new(request).unwrap();
    let result = optimizer.optimize().unwrap();

    assert_eq!(result.summary.total_panels, 1);
    assert_eq!(result.layouts.len(), 1);
    assert_eq!(result.layouts[0].placements.len(), 8);
}

#[test]
fn test_unused_area_allows_additional_row() {
    let mut req = request(
        2,
        vec![panel("plywood", 2400, 1200)],
        vec![item("dummy", 100, 100, 1, false)],
    );
    req.min_initial_usage = true;

    let optimizer = Optimizer::new(req).unwrap();

    let layout = PanelLayout {
        panel_type_id: "plywood".to_string(),
        panel_number: 1,
        width: 2400,
        height: 1200,
        trimming: 0,
        placements: vec![
            placement("shelf1", 0, 0, 600, 300, false),
            placement("shelf2", 602, 0, 600, 300, false),
            placement("shelf3", 1204, 0, 600, 300, false),
            placement("shelf4", 0, 302, 600, 300, false),
            placement("shelf5", 602, 302, 600, 300, false),
            placement("shelf6", 1204, 302, 600, 300, false),
        ],
        unused_areas: vec![],
    };

    let areas = optimizer.find_unused_areas(&layout);
    assert!(areas.iter().any(|a| a.width >= 600 && a.height >= 300));
}

#[test]
fn test_try_place_item_after_vertical_piece() {
    let mut req = request(
        2,
        vec![panel("plywood", 2400, 1200)],
        vec![item("shelf", 600, 300, 1, false)],
    );
    req.min_initial_usage = true;

    let optimizer = Optimizer::new(req).unwrap();

    let layout = PanelLayout {
        panel_type_id: "plywood".to_string(),
        panel_number: 1,
        width: 2400,
        height: 1200,
        trimming: 0,
        placements: vec![
            placement("shelf1", 0, 0, 600, 300, false),
            placement("shelf2", 602, 0, 600, 300, false),
            placement("shelf3", 1204, 0, 600, 300, false),
            placement("shelf4", 1806, 0, 300, 600, true),
            placement("shelf5", 0, 602, 600, 300, false),
            placement("shelf6", 602, 602, 600, 300, false),
            placement("shelf7", 1204, 602, 600, 300, false),
        ],
        unused_areas: vec![],
    };

    let next_item = item("shelf8", 600, 300, 1, false);

    let placement = optimizer.try_place_item(&next_item, &layout);
    assert!(placement.is_some());
}

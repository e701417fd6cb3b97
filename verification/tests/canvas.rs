use resizable_canvas::components::resizable_canvas::{
    is_far_edge_in_range, normalize_resize, CanvasConfig, Msg, ResizableCanvas,
};
use resizable_canvas::constants::get_initial_polygons;
use resizable_canvas::types::{
    BoundingBox, Dimensions, Flipped, HandleName, Point, Polygon, Ratio, ResizeTransform,
    COORD_MAX,
};
use resizable_canvas::utils::{calculate_bounding_box, parse_points, transform_point};

fn start() -> ResizableCanvas {
    ResizableCanvas::create(CanvasConfig::default())
}

fn drag(canvas: &mut ResizableCanvas, handle: HandleName, to: (i64, i64)) {
    assert!(canvas.update(Msg::ResizeStart(handle)));
    assert!(canvas.update(Msg::Resize(Point::new(to.0, to.1))));
    assert!(canvas.update(Msg::ResizeEnd));
}

fn geometry(canvas: &ResizableCanvas) -> (Point, Dimensions, Dimensions, Flipped) {
    (canvas.fixed_anchor, canvas.dimensions, canvas.base_dimensions, canvas.flipped)
}

fn texts(canvas: &ResizableCanvas) -> Vec<&str> {
    canvas.polygons.iter().map(|p| p.points.as_str()).collect()
}

/// Where each corner is drawn: as it is while ungrouped, scaled and moved to
/// the anchor while grouped.
fn drawn(canvas: &ResizableCanvas) -> Vec<Vec<Point>> {
    let scale = canvas.scale();
    canvas
        .polygons
        .iter()
        .map(|polygon| {
            parse_points(&polygon.points)
                .iter()
                .map(|p| {
                    if canvas.is_grouped {
                        transform_point(p, scale.x, scale.y, canvas.fixed_anchor.x, canvas.fixed_anchor.y)
                            .unwrap()
                    } else {
                        *p
                    }
                })
                .collect()
        })
        .collect()
}

#[test]
fn starts_grouped_and_idle_with_the_default_geometry() {
    let canvas = start();
    assert_eq!(
        geometry(&canvas),
        (
            Point::new(15_000, 15_000),
            Dimensions::new(10_000, 10_000),
            Dimensions::new(10_000, 10_000),
            Flipped::new(1, 1)
        )
    );
    assert!(canvas.is_grouped);
    assert!(!canvas.is_dragging);
    assert_eq!(canvas.active_handle, None);
    assert_eq!(canvas.polygons, get_initial_polygons());
    assert_eq!(canvas.bounding_box(), BoundingBox::new(15_000, 15_000, 10_000, 10_000));
    assert_eq!(canvas.scale().x, Ratio::new(10_000, 10_000));
}

#[test]
fn default_configuration_is_valid() {
    assert!(CanvasConfig::default().is_valid());
}

#[test]
fn configuration_with_a_mirrored_or_tiny_size_is_not_valid() {
    let mut config = CanvasConfig::default();
    config.dimensions = Dimensions::new(999, 10_000);
    assert!(!config.is_valid());
    config.dimensions = Dimensions::new(-10_000, 10_000);
    assert!(!config.is_valid());
    config.dimensions = Dimensions::new(10_000, 10_000);
    config.flipped = Flipped::new(-1, 1);
    assert!(!config.is_valid());
    config.flipped = Flipped::new(1, 1);
    config.fixed_anchor = Point::new(COORD_MAX + 1, 0);
    assert!(!config.is_valid());
    config.fixed_anchor = Point::new(COORD_MAX, 0);
    config.dimensions = Dimensions::new(1_001, 1_000);
    assert!(!config.is_valid());
    config.dimensions = Dimensions::new(1_000, 1_000);
    assert!(config.is_valid());
}

#[test]
fn grabbing_a_handle_changes_no_geometry() {
    let mut canvas = start();
    assert!(canvas.update(Msg::ResizeStart(HandleName::TopLeft)));
    assert!(canvas.is_dragging);
    assert_eq!(canvas.active_handle, Some(HandleName::TopLeft));
    assert_eq!(geometry(&canvas), geometry(&start()));
    assert_eq!(canvas.polygons, get_initial_polygons());
}

#[test]
fn releasing_ends_the_drag_and_changes_no_geometry() {
    let mut canvas = start();
    canvas.update(Msg::ResizeStart(HandleName::Right));
    canvas.update(Msg::Resize(Point::new(30_000, 15_000)));
    let before = geometry(&canvas);
    assert!(canvas.update(Msg::ResizeEnd));
    assert!(!canvas.is_dragging);
    assert_eq!(canvas.active_handle, None);
    assert_eq!(geometry(&canvas), before);
}

#[test]
fn pointer_move_without_a_drag_is_ignored() {
    let mut canvas = start();
    assert!(!canvas.update(Msg::Resize(Point::new(30_000, 15_000))));
    assert_eq!(geometry(&canvas), geometry(&start()));
    drag(&mut canvas, HandleName::Right, (30_000, 15_000));
    let before = geometry(&canvas);
    assert!(!canvas.update(Msg::Resize(Point::new(40_000, 15_000))));
    assert_eq!(geometry(&canvas), before);
}

#[test]
fn release_without_a_drag_changes_nothing() {
    let mut canvas = start();
    assert!(canvas.update(Msg::ResizeEnd));
    assert_eq!(geometry(&canvas), geometry(&start()));
    assert!(!canvas.is_dragging);
}

#[test]
fn pointer_outside_the_coordinate_space_is_ignored() {
    let mut canvas = start();
    canvas.update(Msg::ResizeStart(HandleName::Right));
    assert!(!canvas.update(Msg::Resize(Point::new(COORD_MAX + 1, 0))));
    assert!(!canvas.update(Msg::Resize(Point::new(0, i64::MIN))));
    assert_eq!(geometry(&canvas), geometry(&start()));
    assert!(canvas.update(Msg::Resize(Point::new(COORD_MAX, -COORD_MAX))));
    assert_eq!(canvas.dimensions, Dimensions::new(COORD_MAX - 15_000, 10_000));
}

#[test]
fn dragging_right_handle_outwards() {
    let mut canvas = start();
    canvas.update(Msg::ResizeStart(HandleName::Right));
    assert!(canvas.update(Msg::Resize(Point::new(30_000, 15_000))));
    assert_eq!(
        geometry(&canvas),
        (
            Point::new(15_000, 15_000),
            Dimensions::new(15_000, 10_000),
            Dimensions::new(10_000, 10_000),
            Flipped::new(1, 1)
        )
    );
    assert!(canvas.update(Msg::Resize(Point::new(35_000, 99_000))));
    assert_eq!(canvas.dimensions, Dimensions::new(20_000, 10_000));
    assert_eq!(canvas.fixed_anchor, Point::new(15_000, 15_000));
    assert_eq!(canvas.flipped, Flipped::new(1, 1));
    assert_eq!(canvas.scale().x, Ratio::new(20_000, 10_000));
}

#[test]
fn dragging_left_handle_keeps_the_far_edge() {
    let mut canvas = start();
    let far_edge = canvas.fixed_anchor.x + canvas.dimensions.width;
    assert_eq!(far_edge, 25_000);
    canvas.update(Msg::ResizeStart(HandleName::Left));
    canvas.update(Msg::Resize(Point::new(20_000, 15_000)));
    assert_eq!(canvas.dimensions, Dimensions::new(5_000, 10_000));
    assert_eq!(canvas.fixed_anchor, Point::new(20_000, 15_000));
    assert_eq!(canvas.fixed_anchor.x + canvas.dimensions.width, far_edge);
    assert_eq!(canvas.bounding_box(), BoundingBox::new(20_000, 15_000, 5_000, 10_000));
}

#[test]
fn dragging_right_handle_across_the_anchor_mirrors() {
    let mut canvas = start();
    canvas.update(Msg::ResizeStart(HandleName::Right));
    canvas.update(Msg::Resize(Point::new(10_000, 15_000)));
    assert_eq!(canvas.flipped, Flipped::new(-1, 1));
    assert_eq!(canvas.dimensions, Dimensions::new(-5_000, 10_000));
    assert_eq!(canvas.fixed_anchor, Point::new(15_000, 15_000));
    assert_eq!(canvas.bounding_box(), BoundingBox::new(10_000, 15_000, 5_000, 10_000));
    assert_eq!(canvas.scale().x, Ratio::new(-5_000, 10_000));
    assert_eq!(canvas.scale().y, Ratio::new(10_000, 10_000));
}

#[test]
fn mirrored_axis_stays_mirrored_while_the_other_axis_is_dragged() {
    let mut canvas = start();
    drag(&mut canvas, HandleName::Right, (10_000, 15_000));
    drag(&mut canvas, HandleName::Bottom, (0, 30_000));
    assert_eq!(canvas.flipped, Flipped::new(-1, 1));
    assert_eq!(canvas.dimensions, Dimensions::new(-5_000, 15_000));
    drag(&mut canvas, HandleName::Top, (0, 40_000));
    assert_eq!(canvas.flipped, Flipped::new(-1, -1));
    assert_eq!(canvas.dimensions, Dimensions::new(-5_000, -10_000));
    assert_eq!(canvas.fixed_anchor, Point::new(15_000, 40_000));
    assert_eq!(canvas.bounding_box(), BoundingBox::new(10_000, 30_000, 5_000, 10_000));
}

#[test]
fn mirrored_axis_turns_upright_again() {
    let mut canvas = start();
    drag(&mut canvas, HandleName::Right, (10_000, 15_000));
    drag(&mut canvas, HandleName::Right, (17_500, 15_000));
    assert_eq!(canvas.flipped, Flipped::new(1, 1));
    assert_eq!(canvas.dimensions, Dimensions::new(2_500, 10_000));
}

#[test]
fn size_is_floored_near_the_anchor() {
    let mut canvas = start();
    canvas.update(Msg::ResizeStart(HandleName::BottomRight));
    canvas.update(Msg::Resize(Point::new(15_000, 15_001)));
    assert_eq!(canvas.dimensions, Dimensions::new(1_000, 1_000));
    assert_eq!(canvas.flipped, Flipped::new(1, 1));
    canvas.update(Msg::Resize(Point::new(14_999, 14_001)));
    assert_eq!(canvas.dimensions, Dimensions::new(-1_000, -1_000));
    assert_eq!(canvas.flipped, Flipped::new(-1, -1));
    canvas.update(Msg::Resize(Point::new(16_000, 13_999)));
    assert_eq!(canvas.dimensions, Dimensions::new(1_000, -1_001));
    canvas.update(Msg::Resize(Point::new(16_001, 14_000)));
    assert_eq!(canvas.dimensions, Dimensions::new(1_001, -1_000));
    assert_eq!(canvas.fixed_anchor, Point::new(15_000, 15_000));
}

#[test]
fn normalizing_floors_sizes_and_adopts_the_anchor() {
    let stored = normalize_resize(&ResizeTransform::new(-5_000, 999, 7, -8));
    assert_eq!(stored.dimensions, Dimensions::new(-5_000, 1_000));
    assert_eq!(stored.flipped, Flipped::new(-1, 1));
    assert_eq!(stored.fixed_anchor, Point::new(7, -8));
    let stored = normalize_resize(&ResizeTransform::new(0, -1, 0, 0));
    assert_eq!(stored.dimensions, Dimensions::new(1_000, -1_000));
    assert_eq!(stored.flipped, Flipped::new(1, -1));
    let stored = normalize_resize(&ResizeTransform::new(i64::MIN, i64::MAX, i64::MAX, i64::MIN));
    assert_eq!(stored.dimensions, Dimensions::new(i64::MIN, i64::MAX));
    assert_eq!(stored.flipped, Flipped::new(-1, 1));
}

#[test]
fn baking_a_doubled_group() {
    let mut canvas = start();
    drag(&mut canvas, HandleName::BottomRight, (35_000, 35_000));
    assert_eq!(canvas.dimensions, Dimensions::new(20_000, 20_000));
    assert!(canvas.update(Msg::ApplyGroupTransform));
    assert!(!canvas.is_grouped);
    assert_eq!(
        texts(&canvas),
        vec!["150,150 210,150 180,210", "230,170 290,170 260,230", "190,250 250,250 220,310"]
    );
    assert_eq!(
        geometry(&canvas),
        (
            Point::new(15_000, 15_000),
            Dimensions::new(14_000, 16_000),
            Dimensions::new(14_000, 16_000),
            Flipped::new(1, 1)
        )
    );
    assert_eq!(calculate_bounding_box(&canvas.polygons), Some(canvas.bounding_box()));
    assert_eq!(canvas.polygons[0].fill, "#ff6347");
    assert_eq!(canvas.polygons[2].stroke, "black");
    assert_eq!(canvas.polygons[1].stroke_width, 100);

    let baked_box = canvas.bounding_box();
    let baked_corners = drawn(&canvas);
    assert!(canvas.update(Msg::RegroupElements));
    assert!(canvas.is_grouped);
    assert_eq!(
        texts(&canvas),
        vec!["0,0 60,0 30,60", "80,20 140,20 110,80", "40,100 100,100 70,160"]
    );
    assert_eq!(
        geometry(&canvas),
        (
            Point::new(15_000, 15_000),
            Dimensions::new(14_000, 16_000),
            Dimensions::new(14_000, 16_000),
            Flipped::new(1, 1)
        )
    );
    assert_eq!(canvas.bounding_box(), baked_box);
    assert_eq!(drawn(&canvas), baked_corners);

    assert!(canvas.update(Msg::ApplyGroupTransform));
    assert!(!canvas.is_grouped);
    assert_eq!(canvas.bounding_box(), baked_box);
    assert_eq!(drawn(&canvas), baked_corners);
    assert_eq!(
        texts(&canvas),
        vec!["150,150 210,150 180,210", "230,170 290,170 260,230", "190,250 250,250 220,310"]
    );
}

#[test]
fn baking_a_mirrored_group_keeps_the_drawn_rectangle() {
    let mut canvas = start();
    canvas.update(Msg::ApplyGroupTransform);
    canvas.update(Msg::RegroupElements);
    drag(&mut canvas, HandleName::Right, (10_000, 0));
    drag(&mut canvas, HandleName::Bottom, (0, 20_000));
    assert_eq!(canvas.flipped, Flipped::new(-1, 1));
    assert_eq!(canvas.dimensions, Dimensions::new(-5_000, 5_000));
    let frame = canvas.bounding_box();
    assert_eq!(frame, BoundingBox::new(10_000, 15_000, 5_000, 5_000));
    let corners = drawn(&canvas);
    canvas.update(Msg::ApplyGroupTransform);
    assert!(!canvas.is_grouped);
    assert_eq!(canvas.bounding_box(), frame);
    assert_eq!(calculate_bounding_box(&canvas.polygons), Some(frame));
    assert_eq!(drawn(&canvas), corners);
    assert_eq!(canvas.flipped, Flipped::new(1, 1));
    assert_eq!(
        texts(&canvas),
        vec![
            "150,150 128.57,150 139.29,168.75",
            "121.43,156.25 100,156.25 110.71,175",
            "135.71,181.25 114.29,181.25 125,200"
        ]
    );
}

#[test]
fn baking_without_corners_changes_nothing() {
    let mut config = CanvasConfig::default();
    config.polygons = vec![Polygon::new("junk".to_string(), "a".to_string(), "b".to_string(), 1)];
    let mut canvas = ResizableCanvas::create(config);
    drag(&mut canvas, HandleName::Right, (30_000, 0));
    let before = geometry(&canvas);
    assert!(canvas.update(Msg::ApplyGroupTransform));
    assert!(canvas.is_grouped);
    assert_eq!(geometry(&canvas), before);
    assert_eq!(texts(&canvas), vec!["junk"]);
    assert!(canvas.update(Msg::RegroupElements));
    assert!(canvas.is_grouped);
    assert_eq!(geometry(&canvas), before);
    assert_eq!(texts(&canvas), vec!["junk"]);
}

#[test]
fn baking_out_of_the_coordinate_space_changes_nothing() {
    let mut config = CanvasConfig::default();
    config.polygons = vec![Polygon::new("0,0 9000000000,1".to_string(), "a".to_string(), "b".to_string(), 1)];
    let mut canvas = ResizableCanvas::create(config);
    drag(&mut canvas, HandleName::Right, (30_000, 0));
    let before = geometry(&canvas);
    canvas.update(Msg::ApplyGroupTransform);
    assert!(canvas.is_grouped);
    assert_eq!(geometry(&canvas), before);
    assert_eq!(texts(&canvas), vec!["0,0 9000000000,1"]);
}

#[test]
fn baking_with_an_empty_base_changes_nothing() {
    let mut config = CanvasConfig::default();
    config.polygons = vec![Polygon::new("5,5 5,9".to_string(), "a".to_string(), "b".to_string(), 1)];
    let mut canvas = ResizableCanvas::create(config);
    canvas.update(Msg::ApplyGroupTransform);
    assert_eq!(texts(&canvas), vec!["155,155 155,159"]);
    assert_eq!(canvas.dimensions, Dimensions::new(0, 400));
    canvas.update(Msg::RegroupElements);
    assert!(canvas.is_grouped);
    assert_eq!(texts(&canvas), vec!["0,0 0,4"]);
    assert_eq!(canvas.base_dimensions, Dimensions::new(0, 400));
    assert_eq!(canvas.bounding_box(), BoundingBox::new(15_500, 15_500, 0, 400));
    let before = geometry(&canvas);
    canvas.update(Msg::ApplyGroupTransform);
    assert!(canvas.is_grouped);
    assert_eq!(geometry(&canvas), before);
    assert_eq!(texts(&canvas), vec!["0,0 0,4"]);
}

#[test]
fn regrouping_too_far_spread_corners_changes_nothing() {
    let mut config = CanvasConfig::default();
    config.polygons = vec![Polygon::new(
        "-5000000000,0 5000000000.01,1".to_string(),
        "a".to_string(),
        "b".to_string(),
        1,
    )];
    let mut canvas = ResizableCanvas::create(config);
    canvas.is_grouped = false;
    let before = geometry(&canvas);
    canvas.update(Msg::RegroupElements);
    assert!(!canvas.is_grouped);
    assert_eq!(geometry(&canvas), before);
    assert_eq!(texts(&canvas), vec!["-5000000000,0 5000000000.01,1"]);
}

#[test]
fn reset_restores_the_start() {
    let mut canvas = start();
    drag(&mut canvas, HandleName::TopLeft, (40_000, 40_000));
    canvas.update(Msg::ApplyGroupTransform);
    canvas.update(Msg::ResizeStart(HandleName::Left));
    assert!(canvas.update(Msg::Reset));
    assert_eq!(geometry(&canvas), geometry(&start()));
    assert_eq!(canvas.polygons, get_initial_polygons());
    assert!(canvas.is_grouped);
    assert!(!canvas.is_dragging);
    assert_eq!(canvas.active_handle, None);
}

#[test]
fn reset_restores_a_given_configuration() {
    let config = CanvasConfig {
        polygons: vec![Polygon::new("1,1 2,2".to_string(), "a".to_string(), "b".to_string(), 1)],
        fixed_anchor: Point::new(-100, 200),
        dimensions: Dimensions::new(3_000, 4_000),
        flipped: Flipped::new(1, 1),
    };
    assert!(config.is_valid());
    let mut canvas = ResizableCanvas::create(config);
    drag(&mut canvas, HandleName::Bottom, (0, -9_000));
    canvas.update(Msg::ApplyGroupTransform);
    assert_eq!(texts(&canvas), vec!["0,-0.3 1,-2.6"]);
    canvas.update(Msg::Reset);
    assert_eq!(
        geometry(&canvas),
        (
            Point::new(-100, 200),
            Dimensions::new(3_000, 4_000),
            Dimensions::new(3_000, 4_000),
            Flipped::new(1, 1)
        )
    );
    assert_eq!(texts(&canvas), vec!["1,1 2,2"]);
}

#[test]
fn handles_are_drawn_on_the_rendered_rectangle() {
    let mut canvas = start();
    drag(&mut canvas, HandleName::Right, (10_000, 15_000));
    assert_eq!(canvas.handle_point(HandleName::Right), Point::new(15_000, 20_000));
    assert_eq!(canvas.handle_point(HandleName::Left), Point::new(10_000, 20_000));
    assert_eq!(canvas.handle_point(HandleName::TopLeft), Point::new(10_000, 15_000));
    assert_eq!(canvas.handle_point(HandleName::Bottom), Point::new(12_500, 25_000));
}

#[test]
fn group_transform_and_selection_report_the_state() {
    let mut canvas = start();
    drag(&mut canvas, HandleName::Top, (0, 30_000));
    let t = canvas.group_transform();
    assert_eq!(t.position, Point::new(15_000, 30_000));
    assert_eq!(t.flipped, Flipped::new(1, -1));
    assert_eq!(t.scale.x, Ratio::new(10_000, 10_000));
    assert_eq!(t.scale.y, Ratio::new(-5_000, 10_000));
    let g = canvas.selected_group_properties();
    assert_eq!(g.dimensions, Dimensions::new(10_000, -5_000));
    assert_eq!(g.fixed_anchor, Point::new(15_000, 30_000));
    assert_eq!(g.flipped, Flipped::new(1, -1));
}

#[test]
fn markers_of_all_handles() {
    let mut canvas = start();
    drag(&mut canvas, HandleName::Right, (10_000, 15_000));
    let seen: Vec<(HandleName, Point, i64, &str)> = canvas
        .handle_markers()
        .iter()
        .map(|m| (m.handle, m.position, m.radius, m.cursor))
        .collect();
    assert_eq!(
        seen,
        vec![
            (HandleName::Right, Point::new(15_000, 20_000), 600, "ew-resize"),
            (HandleName::Bottom, Point::new(12_500, 25_000), 600, "ns-resize"),
            (HandleName::Left, Point::new(10_000, 20_000), 600, "ew-resize"),
            (HandleName::Top, Point::new(12_500, 15_000), 600, "ns-resize"),
            (HandleName::BottomRight, Point::new(15_000, 25_000), 800, "nwse-resize"),
            (HandleName::BottomLeft, Point::new(10_000, 25_000), 800, "nesw-resize"),
            (HandleName::TopRight, Point::new(15_000, 15_000), 800, "nesw-resize"),
            (HandleName::TopLeft, Point::new(10_000, 15_000), 800, "nwse-resize"),
        ]
    );
}

#[test]
fn canvas_stays_valid_through_events() {
    let mut canvas = start();
    assert!(canvas.is_valid());
    let events = [
        Msg::ResizeStart(HandleName::TopLeft),
        Msg::Resize(Point::new(COORD_MAX, COORD_MAX)),
        Msg::Resize(Point::new(-COORD_MAX, -COORD_MAX)),
        Msg::Resize(Point::new(25_000, 25_000)),
        Msg::ApplyGroupTransform,
        Msg::Resize(Point::new(0, 0)),
        Msg::RegroupElements,
        Msg::ResizeEnd,
        Msg::ApplyGroupTransform,
        Msg::Reset,
    ];
    for event in events {
        canvas.update(event);
        assert!(canvas.is_valid());
    }
}

#[test]
fn tampered_canvas_is_not_valid() {
    let mut canvas = start();
    canvas.flipped = Flipped::new(-1, 1);
    assert!(!canvas.is_valid());
    let mut canvas = start();
    canvas.is_dragging = true;
    assert!(!canvas.is_valid());
    let mut canvas = start();
    canvas.dimensions = Dimensions::new(i64::MAX, 1);
    assert!(!canvas.is_valid());
    let mut canvas = start();
    canvas.base_dimensions = Dimensions::new(-1, 1);
    assert!(!canvas.is_valid());
}

#[test]
fn far_edge_may_leave_the_coordinate_space_by_the_minimum_size() {
    assert!(is_far_edge_in_range(COORD_MAX, 1_000));
    assert!(!is_far_edge_in_range(COORD_MAX, 1_001));
    assert!(is_far_edge_in_range(-COORD_MAX, -1_000));
    assert!(!is_far_edge_in_range(-COORD_MAX, -1_001));
    assert!(is_far_edge_in_range(i64::MAX, i64::MIN));
    assert!(!is_far_edge_in_range(i64::MAX, i64::MAX));
    assert!(!is_far_edge_in_range(i64::MIN, i64::MIN));
}

#[test]
fn moving_the_pointer_to_the_same_place_again_changes_nothing() {
    for handle in resizable_canvas::constants::get_all_handles() {
        let mut canvas = start();
        canvas.update(Msg::ResizeStart(handle));
        canvas.update(Msg::Resize(Point::new(15_500, 40_000)));
        let once = geometry(&canvas);
        assert!(canvas.update(Msg::Resize(Point::new(15_500, 40_000))));
        assert_eq!(geometry(&canvas), once);
    }
}

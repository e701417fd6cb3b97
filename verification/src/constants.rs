//! Default geometry, sizes and the per-handle presentation data.

use vstd::prelude::*;
use crate::types::{BoundingBox, Dimensions, Flipped, HandleName, Point, Polygon, PolygonView};

verus! {

/// Side length of the square canvas.
pub const SVG_SIZE: i64 = 50_000;

/// Smallest magnitude that a resize leaves to a dimension.
pub const MIN_SIZE: i64 = 1_000;

/// Radius of the marker of an edge handle.
pub const HANDLE_SIZE_EDGE: i64 = 600;

/// Radius of the marker of a corner handle.
pub const HANDLE_SIZE_CORNER: i64 = 800;

/// Radius of the marker of the anchor.
pub const ANCHOR_RADIUS: i64 = 500;

/// The three triangles that a canvas starts with, as mathematical values.
pub open spec fn initial_polygons() -> Seq<PolygonView> {
    seq![
        PolygonView {
            points: "0,0 30,0 15,30"@,
            fill: "#ff6347"@,
            stroke: "black"@,
            stroke_width: 100,
        },
        PolygonView {
            points: "40,10 70,10 55,40"@,
            fill: "#4682b4"@,
            stroke: "black"@,
            stroke_width: 100,
        },
        PolygonView {
            points: "20,50 50,50 35,80"@,
            fill: "#9acd32"@,
            stroke: "black"@,
            stroke_width: 100,
        },
    ]
}

pub fn get_initial_polygons() -> (polygons: Vec<Polygon>)
    ensures
        polygons@.len() == 3,
        forall|i: int| 0 <= i < 3 ==> (#[trigger] polygons@[i])@ == initial_polygons()[i],
{
    let mut polygons: Vec<Polygon> = Vec::new();
    polygons.push(
        Polygon::new("0,0 30,0 15,30".to_owned(), "#ff6347".to_owned(), "black".to_owned(), 100),
    );
    polygons.push(
        Polygon::new(
            "40,10 70,10 55,40".to_owned(),
            "#4682b4".to_owned(),
            "black".to_owned(),
            100,
        ),
    );
    polygons.push(
        Polygon::new(
            "20,50 50,50 35,80".to_owned(),
            "#9acd32".to_owned(),
            "black".to_owned(),
            100,
        ),
    );
    polygons
}

pub fn get_initial_fixed_anchor() -> (p: Point)
    ensures
        p == (Point { x: 15_000, y: 15_000 }),
{
    Point::new(15_000, 15_000)
}

pub fn get_initial_dimensions() -> (d: Dimensions)
    ensures
        d == (Dimensions { width: 10_000, height: 10_000 }),
{
    Dimensions::new(10_000, 10_000)
}

pub fn get_initial_flipped() -> (f: Flipped)
    ensures
        f == (Flipped { x: 1, y: 1 }),
{
    Flipped::new(1, 1)
}

/// How a handle is presented: the pointer cursor over it, and whether it sits
/// on a corner.
pub struct HandleConfig {
    pub cursor: &'static str,
    pub is_corner: bool,
}

/// Where a handle sits on a rectangle: edge handles at the middle of their
/// edge, corner handles at their corner. Half of an odd size is rounded down.
pub open spec fn handle_position(handle: HandleName, bbox: BoundingBox) -> (int, int) {
    match handle {
        HandleName::Right => (bbox.x + bbox.width, bbox.y + bbox.height / 2),
        HandleName::Bottom => (bbox.x + bbox.width / 2, bbox.y + bbox.height),
        HandleName::Left => (bbox.x as int, bbox.y + bbox.height / 2),
        HandleName::Top => (bbox.x + bbox.width / 2, bbox.y as int),
        HandleName::BottomRight => (bbox.x + bbox.width, bbox.y + bbox.height),
        HandleName::BottomLeft => (bbox.x as int, bbox.y + bbox.height),
        HandleName::TopRight => (bbox.x + bbox.width, bbox.y as int),
        HandleName::TopLeft => (bbox.x as int, bbox.y as int),
    }
}

impl HandleConfig {
    /// The position of `handle` on the rectangle `bbox`.
    pub fn calc(&self, handle: HandleName, bbox: &BoundingBox) -> (p: Point)
        requires
            bbox.wf(),
        ensures
            p.x == handle_position(handle, *bbox).0,
            p.y == handle_position(handle, *bbox).1,
    {
        match handle {
            HandleName::Right => Point::new(bbox.x + bbox.width, bbox.y + bbox.height / 2),
            HandleName::Bottom => Point::new(bbox.x + bbox.width / 2, bbox.y + bbox.height),
            HandleName::Left => Point::new(bbox.x, bbox.y + bbox.height / 2),
            HandleName::Top => Point::new(bbox.x + bbox.width / 2, bbox.y),
            HandleName::BottomRight => Point::new(bbox.x + bbox.width, bbox.y + bbox.height),
            HandleName::BottomLeft => Point::new(bbox.x, bbox.y + bbox.height),
            HandleName::TopRight => Point::new(bbox.x + bbox.width, bbox.y),
            HandleName::TopLeft => Point::new(bbox.x, bbox.y),
        }
    }
}

/// A handle sits on a corner of the rectangle.
pub open spec fn is_corner_handle(handle: HandleName) -> bool {
    match handle {
        HandleName::Right | HandleName::Bottom | HandleName::Left | HandleName::Top => false,
        _ => true,
    }
}

/// The name of the pointer cursor over a handle: along the axis that an edge
/// handle moves on, along the diagonal of a corner handle.
pub open spec fn handle_cursor(handle: HandleName) -> Seq<char> {
    match handle {
        HandleName::Right | HandleName::Left => "ew-resize"@,
        HandleName::Bottom | HandleName::Top => "ns-resize"@,
        HandleName::BottomRight | HandleName::TopLeft => "nwse-resize"@,
        HandleName::BottomLeft | HandleName::TopRight => "nesw-resize"@,
    }
}

pub fn get_handle_config(handle: HandleName) -> (config: HandleConfig)
    ensures
        config.cursor@ == handle_cursor(handle),
        config.is_corner == is_corner_handle(handle),
{
    match handle {
        HandleName::Right => HandleConfig { cursor: "ew-resize", is_corner: false },
        HandleName::Bottom => HandleConfig { cursor: "ns-resize", is_corner: false },
        HandleName::Left => HandleConfig { cursor: "ew-resize", is_corner: false },
        HandleName::Top => HandleConfig { cursor: "ns-resize", is_corner: false },
        HandleName::BottomRight => HandleConfig { cursor: "nwse-resize", is_corner: true },
        HandleName::BottomLeft => HandleConfig { cursor: "nesw-resize", is_corner: true },
        HandleName::TopRight => HandleConfig { cursor: "nesw-resize", is_corner: true },
        HandleName::TopLeft => HandleConfig { cursor: "nwse-resize", is_corner: true },
    }
}

/// The eight handles: the edge handles first, then the corner handles.
pub open spec fn all_handles() -> Seq<HandleName> {
    seq![
        HandleName::Right,
        HandleName::Bottom,
        HandleName::Left,
        HandleName::Top,
        HandleName::BottomRight,
        HandleName::BottomLeft,
        HandleName::TopRight,
        HandleName::TopLeft,
    ]
}

pub fn get_all_handles() -> (handles: Vec<HandleName>)
    ensures
        handles@ == all_handles(),
{
    let mut handles: Vec<HandleName> = Vec::new();
    handles.push(HandleName::Right);
    handles.push(HandleName::Bottom);
    handles.push(HandleName::Left);
    handles.push(HandleName::Top);
    handles.push(HandleName::BottomRight);
    handles.push(HandleName::BottomLeft);
    handles.push(HandleName::TopRight);
    handles.push(HandleName::TopLeft);
    proof {
        assert(handles@ =~= all_handles());
    }
    handles
}

} // verus!

//! Plain data types of the canvas geometry.
//!
//! Lengths and coordinates are fixed-point numbers: an `i64` that counts
//! hundredths of a canvas unit, so `150` canvas units are stored as `15_000`.

use vstd::prelude::*;

verus! {

/// Number of stored steps in one canvas unit.
pub const UNIT: i64 = 100;

/// Largest magnitude of a coordinate inside the canvas coordinate space.
pub const COORD_MAX: i64 = 1_000_000_000_000;

/// Largest magnitude of a signed size or of a rectangle edge that the
/// arithmetic of this crate accepts; four times `COORD_MAX`.
pub const SPAN_MAX: i64 = 4_000_000_000_000;

/// A position in canvas-local space.
#[derive(Debug, Clone, Copy, PartialEq, Eq, Structural)]
pub struct Point {
    pub x: i64,
    pub y: i64,
}

impl Point {
    /// Both coordinates lie inside the coordinate space.
    pub open spec fn in_range(&self) -> bool {
        &&& -COORD_MAX <= self.x <= COORD_MAX
        &&& -COORD_MAX <= self.y <= COORD_MAX
    }

    pub fn new(x: i64, y: i64) -> (p: Self)
        ensures
            p == (Point { x, y }),
    {
        Self { x, y }
    }

    /// Runtime test of `in_range`.
    pub fn is_in_range(&self) -> (b: bool)
        ensures
            b == self.in_range(),
    {
        -COORD_MAX <= self.x && self.x <= COORD_MAX && -COORD_MAX <= self.y && self.y
            <= COORD_MAX
    }
}

/// A signed size: a negative component means that the group is mirrored on
/// that axis.
#[derive(Debug, Clone, Copy, PartialEq, Eq, Structural)]
pub struct Dimensions {
    pub width: i64,
    pub height: i64,
}

impl Dimensions {
    /// Both components are small enough to be added to a coordinate.
    pub open spec fn in_range(&self) -> bool {
        &&& -SPAN_MAX <= self.width <= SPAN_MAX
        &&& -SPAN_MAX <= self.height <= SPAN_MAX
    }

    pub fn new(width: i64, height: i64) -> (d: Self)
        ensures
            d == (Dimensions { width, height }),
    {
        Self { width, height }
    }
}

/// An axis-aligned rectangle given by its top-left corner and its size.
#[derive(Debug, Clone, Copy, PartialEq, Eq, Structural)]
pub struct BoundingBox {
    pub x: i64,
    pub y: i64,
    pub width: i64,
    pub height: i64,
}

impl BoundingBox {
    /// The size is not negative, and corner and size are small enough to be
    /// added to each other.
    pub open spec fn wf(&self) -> bool {
        &&& -SPAN_MAX <= self.x <= SPAN_MAX
        &&& -SPAN_MAX <= self.y <= SPAN_MAX
        &&& 0 <= self.width <= SPAN_MAX
        &&& 0 <= self.height <= SPAN_MAX
    }

    pub fn new(x: i64, y: i64, width: i64, height: i64) -> (b: Self)
        ensures
            b == (BoundingBox { x, y, width, height }),
    {
        Self { x, y, width, height }
    }
}

/// One polygon: its corner list as text, and how it is painted.
///
/// `points` holds whitespace-separated `x,y` tokens. The geometry never looks
/// at `fill`, `stroke` or `stroke_width`.
#[derive(Debug, PartialEq, Eq)]
pub struct Polygon {
    pub points: String,
    pub fill: String,
    pub stroke: String,
    pub stroke_width: i64,
}

/// What a polygon holds, as mathematical values.
pub struct PolygonView {
    pub points: Seq<char>,
    pub fill: Seq<char>,
    pub stroke: Seq<char>,
    pub stroke_width: int,
}

impl View for Polygon {
    type V = PolygonView;

    open spec fn view(&self) -> PolygonView {
        PolygonView {
            points: self.points@,
            fill: self.fill@,
            stroke: self.stroke@,
            stroke_width: self.stroke_width as int,
        }
    }
}

impl Clone for Polygon {
    fn clone(&self) -> (p: Self)
        ensures
            p == *self,
    {
        Self {
            points: self.points.clone(),
            fill: self.fill.clone(),
            stroke: self.stroke.clone(),
            stroke_width: self.stroke_width,
        }
    }
}

impl Polygon {
    pub fn new(points: String, fill: String, stroke: String, stroke_width: i64) -> (p: Self)
        ensures
            p == (Polygon { points, fill, stroke, stroke_width }),
    {
        Self { points, fill, stroke, stroke_width }
    }

    /// A polygon with the same paint and another corner list.
    pub fn with_points(&self, points: String) -> (p: Self)
        ensures
            p == (Polygon { points, ..*self }),
    {
        Self {
            points,
            fill: self.fill.clone(),
            stroke: self.stroke.clone(),
            stroke_width: self.stroke_width,
        }
    }
}

/// What one evaluation of the resize rule yields: the raw size, whose sign
/// tells whether the pointer crossed the fixed edge, and the new anchor.
#[derive(Debug, Clone, Copy, PartialEq, Eq, Structural)]
pub struct ResizeTransform {
    pub width: i64,
    pub height: i64,
    pub anchor_x: i64,
    pub anchor_y: i64,
}

impl ResizeTransform {
    pub fn new(width: i64, height: i64, anchor_x: i64, anchor_y: i64) -> (t: Self)
        ensures
            t == (ResizeTransform { width, height, anchor_x, anchor_y }),
    {
        Self { width, height, anchor_x, anchor_y }
    }
}

/// The eight handles of the selection rectangle.
#[derive(Debug, Clone, Copy, PartialEq, Eq, Hash, Structural)]
pub enum HandleName {
    Right,
    Bottom,
    Left,
    Top,
    BottomRight,
    BottomLeft,
    TopRight,
    TopLeft,
}

impl HandleName {
    /// The handle's name in kebab case.
    pub open spec fn label(&self) -> Seq<char> {
        match self {
            HandleName::Right => "right"@,
            HandleName::Bottom => "bottom"@,
            HandleName::Left => "left"@,
            HandleName::Top => "top"@,
            HandleName::BottomRight => "bottom-right"@,
            HandleName::BottomLeft => "bottom-left"@,
            HandleName::TopRight => "top-right"@,
            HandleName::TopLeft => "top-left"@,
        }
    }

    pub fn as_str(&self) -> (s: &'static str)
        ensures
            s@ == self.label(),
    {
        match self {
            HandleName::Right => "right",
            HandleName::Bottom => "bottom",
            HandleName::Left => "left",
            HandleName::Top => "top",
            HandleName::BottomRight => "bottom-right",
            HandleName::BottomLeft => "bottom-left",
            HandleName::TopRight => "top-right",
            HandleName::TopLeft => "top-left",
        }
    }
}

/// A scale factor as an exact fraction `num / den`.
///
/// The factor is defined when `den` is positive.
#[derive(Debug, Clone, Copy, PartialEq, Eq, Structural)]
pub struct Ratio {
    pub num: i64,
    pub den: i64,
}

impl Ratio {
    pub open spec fn wf(&self) -> bool {
        self.den > 0
    }

    pub fn new(num: i64, den: i64) -> (r: Self)
        ensures
            r == (Ratio { num, den }),
    {
        Self { num, den }
    }

    /// The factor one.
    pub fn identity() -> (r: Self)
        ensures
            r == (Ratio { num: 1, den: 1 }),
    {
        Self { num: 1, den: 1 }
    }
}

/// The scale factors of the two axes.
#[derive(Debug, Clone, Copy, PartialEq, Eq, Structural)]
pub struct Scale {
    pub x: Ratio,
    pub y: Ratio,
}

/// Mirror state per axis: `1` for upright, `-1` for mirrored.
#[derive(Debug, Clone, Copy, PartialEq, Eq, Structural)]
pub struct Flipped {
    pub x: i32,
    pub y: i32,
}

impl Flipped {
    /// Each component is `1` or `-1`.
    pub open spec fn wf(&self) -> bool {
        &&& (self.x == 1 || self.x == -1)
        &&& (self.y == 1 || self.y == -1)
    }

    pub fn new(x: i32, y: i32) -> (f: Self)
        ensures
            f == (Flipped { x, y }),
    {
        Self { x, y }
    }
}

/// The transform under which a grouped shape list is drawn.
#[derive(Debug, Clone, Copy, PartialEq, Eq, Structural)]
pub struct GroupTransform {
    pub scale: Scale,
    pub position: Point,
    pub flipped: Flipped,
}

/// The geometry of the selection: signed size, anchor and mirror state.
#[derive(Debug, Clone, Copy, PartialEq, Eq, Structural)]
pub struct SelectedGroupProperties {
    pub dimensions: Dimensions,
    pub fixed_anchor: Point,
    pub flipped: Flipped,
}

} // verus!

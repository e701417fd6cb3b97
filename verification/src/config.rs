//! The resize rule: how a pointer position moves the edges that a handle
//! drags, while the other edges stay where they are.

use vstd::prelude::*;
use crate::types::{Dimensions, HandleName, Point, ResizeTransform, COORD_MAX, SPAN_MAX};

verus! {

/// The handle drags the edge that the anchor's x coordinate marks.
pub open spec fn drags_left(handle: HandleName) -> bool {
    handle == HandleName::Left || handle == HandleName::BottomLeft || handle
        == HandleName::TopLeft
}

/// The handle drags the edge opposite to the anchor on the x axis.
pub open spec fn drags_right(handle: HandleName) -> bool {
    handle == HandleName::Right || handle == HandleName::BottomRight || handle
        == HandleName::TopRight
}

/// The handle drags the edge that the anchor's y coordinate marks.
pub open spec fn drags_top(handle: HandleName) -> bool {
    handle == HandleName::Top || handle == HandleName::TopRight || handle == HandleName::TopLeft
}

/// The handle drags the edge opposite to the anchor on the y axis.
pub open spec fn drags_bottom(handle: HandleName) -> bool {
    handle == HandleName::Bottom || handle == HandleName::BottomRight || handle
        == HandleName::BottomLeft
}

/// The resize rule as a table with one row per handle: raw width, raw
/// height, anchor x, anchor y.
pub open spec fn resize_table(
    handle: HandleName,
    current: Dimensions,
    point: Point,
    fixed: Point,
) -> (int, int, int, int) {
    match handle {
        HandleName::Right => (point.x - fixed.x, current.height as int, fixed.x as int, fixed.y as int),
        HandleName::Bottom => (current.width as int, point.y - fixed.y, fixed.x as int, fixed.y as int),
        HandleName::Left => (
            fixed.x + current.width - point.x,
            current.height as int,
            point.x as int,
            fixed.y as int,
        ),
        HandleName::Top => (
            current.width as int,
            fixed.y + current.height - point.y,
            fixed.x as int,
            point.y as int,
        ),
        HandleName::BottomRight => (
            point.x - fixed.x,
            point.y - fixed.y,
            fixed.x as int,
            fixed.y as int,
        ),
        HandleName::BottomLeft => (
            fixed.x + current.width - point.x,
            point.y - fixed.y,
            point.x as int,
            fixed.y as int,
        ),
        HandleName::TopRight => (
            point.x - fixed.x,
            fixed.y + current.height - point.y,
            fixed.x as int,
            point.y as int,
        ),
        HandleName::TopLeft => (
            fixed.x + current.width - point.x,
            fixed.y + current.height - point.y,
            point.x as int,
            point.y as int,
        ),
    }
}

/// Which of the two edges of one axis a handle drags.
#[derive(Clone, Copy)]
pub struct AxisGrip {
    /// The edge at the anchor.
    pub low: bool,
    /// The edge opposite to the anchor.
    pub high: bool,
}

/// The grips of a handle on the x axis and on the y axis.
pub fn handle_grips(handle: HandleName) -> (grips: (AxisGrip, AxisGrip))
    ensures
        grips.0.low == drags_left(handle),
        grips.0.high == drags_right(handle),
        grips.1.low == drags_top(handle),
        grips.1.high == drags_bottom(handle),
{
    let none = AxisGrip { low: false, high: false };
    let low = AxisGrip { low: true, high: false };
    let high = AxisGrip { low: false, high: true };
    match handle {
        HandleName::Right => (high, none),
        HandleName::Bottom => (none, high),
        HandleName::Left => (low, none),
        HandleName::Top => (none, low),
        HandleName::BottomRight => (high, high),
        HandleName::BottomLeft => (low, high),
        HandleName::TopRight => (high, low),
        HandleName::TopLeft => (low, low),
    }
}

/// Size and anchor of one axis after the pointer moved to `pointer`.
pub open spec fn resize_axis_spec(grip: AxisGrip, size: int, pointer: int, anchor: int) -> (
    int,
    int,
) {
    if grip.low {
        (anchor + size - pointer, pointer)
    } else if grip.high {
        (pointer - anchor, anchor)
    } else {
        (size, anchor)
    }
}

/// The resize rule on one axis: a dragged low edge follows the pointer and
/// keeps the far edge `anchor + size`; a dragged high edge follows the pointer
/// and keeps the anchor; an axis that is not dragged keeps both.
pub fn resize_axis(grip: AxisGrip, size: i64, pointer: i64, anchor: i64) -> (r: (i64, i64))
    requires
        -SPAN_MAX <= size <= SPAN_MAX,
        -COORD_MAX <= pointer <= COORD_MAX,
        -COORD_MAX <= anchor <= COORD_MAX,
    ensures
        r.0 == resize_axis_spec(grip, size as int, pointer as int, anchor as int).0,
        r.1 == resize_axis_spec(grip, size as int, pointer as int, anchor as int).1,
{
    if grip.low {
        (anchor + size - pointer, pointer)
    } else if grip.high {
        (pointer - anchor, anchor)
    } else {
        (size, anchor)
    }
}

/// The new raw size and anchor when `handle` is dragged to `point`, for a
/// rectangle of signed size `current` anchored at `fixed`.
///
/// The result is the row of `resize_table` for the handle. The raw size is
/// negative where the pointer has crossed the edge that stays fixed.
pub fn calculate_resize_transform(
    handle: HandleName,
    current: &Dimensions,
    point: &Point,
    fixed: &Point,
) -> (t: ResizeTransform)
    requires
        current.in_range(),
        point.in_range(),
        fixed.in_range(),
    ensures
        t.width == resize_table(handle, *current, *point, *fixed).0,
        t.height == resize_table(handle, *current, *point, *fixed).1,
        t.anchor_x == resize_table(handle, *current, *point, *fixed).2,
        t.anchor_y == resize_table(handle, *current, *point, *fixed).3,
{
    let grips = handle_grips(handle);
    let horizontal = resize_axis(grips.0, current.width, point.x, fixed.x);
    let vertical = resize_axis(grips.1, current.height, point.y, fixed.y);
    ResizeTransform::new(horizontal.0, vertical.0, horizontal.1, vertical.1)
}

/// Every edge that the handle does not drag stays at its coordinate, and
/// every edge that it drags lands on the pointer: the low edges are the anchor
/// coordinates, the high edges are anchor plus size.
pub proof fn lemma_undragged_edges_stay(
    handle: HandleName,
    current: Dimensions,
    point: Point,
    fixed: Point,
)
    ensures
        ({
            let t = resize_table(handle, current, point, fixed);
            &&& !drags_left(handle) ==> t.2 == fixed.x
            &&& !drags_right(handle) ==> t.2 + t.0 == fixed.x + current.width
            &&& !drags_top(handle) ==> t.3 == fixed.y
            &&& !drags_bottom(handle) ==> t.3 + t.1 == fixed.y + current.height
            &&& drags_left(handle) ==> t.2 == point.x
            &&& drags_right(handle) ==> t.2 + t.0 == point.x
            &&& drags_top(handle) ==> t.3 == point.y
            &&& drags_bottom(handle) ==> t.3 + t.1 == point.y
        }),
{
}

} // verus!

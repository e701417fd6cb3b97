//! The interaction state machine of the resizable canvas.
//!
//! The canvas holds a shape list together with the signed size, the anchor and
//! the mirror state of its selection rectangle. While the shapes are grouped,
//! their corners are relative to the anchor and are drawn under the scale that
//! the rectangle has over its base size; baking writes that scale into the
//! corners, regrouping makes the corners relative again.

use vstd::prelude::*;
use crate::config::{calculate_resize_transform, resize_table};
use crate::constants::{
    all_handles, get_all_handles, get_handle_config, get_initial_dimensions,
    get_initial_fixed_anchor, get_initial_flipped, get_initial_polygons, handle_cursor,
    handle_position, initial_polygons, is_corner_handle, HANDLE_SIZE_CORNER, HANDLE_SIZE_EDGE,
    MIN_SIZE,
};
use crate::points_text::decode_points;
use crate::types::{
    BoundingBox, Dimensions, Flipped, GroupTransform, HandleName, Point, Polygon, Ratio,
    ResizeTransform, Scale, SelectedGroupProperties, COORD_MAX,
};
use crate::utils::{
    all_points, all_transformable, are_polygon_images, calculate_bounding_box,
    convert_to_local_coordinates, is_bounding_box, lemma_all_points_of_images,
    lemma_transformable_all_points, lemma_unit_scale, polygons_transformable, transform_polygons,
    transformed_point, transformed_points,
};

verus! {

/// The size that a resize stores for a raw size: the raw size itself where
/// its magnitude reaches `MIN_SIZE`, else `MIN_SIZE` with the sign of the raw
/// size.
pub open spec fn floored_size(raw: int) -> int {
    if raw < 0 {
        if raw < -MIN_SIZE {
            raw
        } else {
            -MIN_SIZE as int
        }
    } else {
        if raw > MIN_SIZE {
            raw
        } else {
            MIN_SIZE as int
        }
    }
}

/// The mirror state that a raw size asks for: mirrored where it is negative.
pub open spec fn flip_sign(raw: int) -> int {
    if raw < 0 {
        -1
    } else {
        1
    }
}

/// The magnitude of a size with the sign of a mirror state.
pub open spec fn signed_magnitude(flip: int, size: int) -> int {
    if size < 0 {
        flip * (-size)
    } else {
        flip * size
    }
}

/// A coordinate plus a signed size stays within `MIN_SIZE` of the coordinate
/// space.
pub open spec fn far_edge_in_range(anchor: int, size: int) -> bool {
    -COORD_MAX - MIN_SIZE <= anchor + size <= COORD_MAX + MIN_SIZE
}

/// Runtime test of `far_edge_in_range`.
pub fn is_far_edge_in_range(anchor: i64, size: i64) -> (b: bool)
    ensures
        b == far_edge_in_range(anchor as int, size as int),
{
    let edge: i128 = anchor as i128 + size as i128;
    let limit: i128 = COORD_MAX as i128 + MIN_SIZE as i128;
    -limit <= edge && edge <= limit
}

/// What a resize stores for the raw result of the resize rule: the floored
/// sizes, the mirror state that their signs give, and the anchor as it is.
pub fn normalize_resize(transform: &ResizeTransform) -> (g: SelectedGroupProperties)
    ensures
        g.dimensions.width == floored_size(transform.width as int),
        g.dimensions.height == floored_size(transform.height as int),
        g.flipped.x == flip_sign(transform.width as int),
        g.flipped.y == flip_sign(transform.height as int),
        g.fixed_anchor == (Point { x: transform.anchor_x, y: transform.anchor_y }),
{
    let flip_x = transform.width < 0;
    let flip_y = transform.height < 0;
    let width = if flip_x {
        if transform.width < -MIN_SIZE {
            transform.width
        } else {
            -MIN_SIZE
        }
    } else {
        if transform.width > MIN_SIZE {
            transform.width
        } else {
            MIN_SIZE
        }
    };
    let height = if flip_y {
        if transform.height < -MIN_SIZE {
            transform.height
        } else {
            -MIN_SIZE
        }
    } else {
        if transform.height > MIN_SIZE {
            transform.height
        } else {
            MIN_SIZE
        }
    };
    SelectedGroupProperties {
        dimensions: Dimensions::new(width, height),
        fixed_anchor: Point::new(transform.anchor_x, transform.anchor_y),
        flipped: Flipped::new(
            if flip_x {
                -1
            } else {
                1
            },
            if flip_y {
                -1
            } else {
                1
            },
        ),
    }
}

/// A stored size is negative exactly where the raw size was, and its
/// magnitude is at least `MIN_SIZE`; the mirror state follows the sign.
pub proof fn lemma_flip_follows_sign(raw: int)
    ensures
        raw < 0 ==> flip_sign(raw) == -1 && floored_size(raw) <= -MIN_SIZE,
        raw >= 0 ==> flip_sign(raw) == 1 && floored_size(raw) >= MIN_SIZE,
        floored_size(raw) == raw || -MIN_SIZE <= raw <= MIN_SIZE,
{
}

/// The geometry that a canvas starts with and that a reset restores.
pub struct CanvasConfig {
    pub polygons: Vec<Polygon>,
    pub fixed_anchor: Point,
    pub dimensions: Dimensions,
    pub flipped: Flipped,
}

impl CanvasConfig {
    /// The anchor and the far corner lie inside the coordinate space, the
    /// size is upright and at least `MIN_SIZE`, and nothing is mirrored.
    pub open spec fn wf(&self) -> bool {
        &&& self.fixed_anchor.in_range()
        &&& MIN_SIZE <= self.dimensions.width
        &&& MIN_SIZE <= self.dimensions.height
        &&& far_edge_in_range(self.fixed_anchor.x as int, self.dimensions.width as int)
        &&& far_edge_in_range(self.fixed_anchor.y as int, self.dimensions.height as int)
        &&& self.flipped == (Flipped { x: 1, y: 1 })
    }

    /// Runtime test of `wf`.
    pub fn is_valid(&self) -> (b: bool)
        ensures
            b == self.wf(),
    {
        let anchor = self.fixed_anchor;
        let size = self.dimensions;
        let upright = self.flipped.x == 1 && self.flipped.y == 1;
        let large_enough = MIN_SIZE <= size.width && MIN_SIZE <= size.height;
        let far_corner = is_far_edge_in_range(anchor.x, size.width) && is_far_edge_in_range(
            anchor.y,
            size.height,
        );
        anchor.is_in_range() && large_enough && far_corner && upright
    }
}

impl Default for CanvasConfig {
    /// Three triangles in a square of a hundred units anchored at
    /// `(150, 150)`.
    fn default() -> (config: Self)
        ensures
            config.wf(),
            config.polygons@.len() == 3,
            forall|i: int| 0 <= i < 3 ==> (#[trigger] config.polygons@[i])@ == initial_polygons()[i],
            config.fixed_anchor == (Point { x: 15_000, y: 15_000 }),
            config.dimensions == (Dimensions { width: 10_000, height: 10_000 }),
            config.flipped == (Flipped { x: 1, y: 1 }),
    {
        CanvasConfig {
            polygons: get_initial_polygons(),
            fixed_anchor: get_initial_fixed_anchor(),
            dimensions: get_initial_dimensions(),
            flipped: get_initial_flipped(),
        }
    }
}

/// An interaction event.
pub enum Msg {
    /// A handle was grabbed.
    ResizeStart(HandleName),
    /// The pointer moved to a position of the canvas.
    Resize(Point),
    /// The pointer was released.
    ResizeEnd,
    /// Write the current scale into the corners and ungroup.
    ApplyGroupTransform,
    /// Make the corners relative to their bounding box and group.
    RegroupElements,
    /// Restore the starting geometry.
    Reset,
}

/// How one handle is drawn.
pub struct HandleMarker {
    pub handle: HandleName,
    pub position: Point,
    pub radius: i64,
    pub cursor: &'static str,
}

/// `marker` draws `handle` on the rectangle `bbox`: at the handle's place,
/// with the radius of its kind and with its cursor.
pub open spec fn is_marker_of(marker: HandleMarker, handle: HandleName, bbox: BoundingBox) -> bool {
    &&& marker.handle == handle
    &&& marker.position.x == handle_position(handle, bbox).0
    &&& marker.position.y == handle_position(handle, bbox).1
    &&& marker.radius == if is_corner_handle(handle) {
        HANDLE_SIZE_CORNER
    } else {
        HANDLE_SIZE_EDGE
    }
    &&& marker.cursor@ == handle_cursor(handle)
}

/// The state of the canvas.
pub struct ResizableCanvas {
    pub fixed_anchor: Point,
    pub dimensions: Dimensions,
    pub base_dimensions: Dimensions,
    pub flipped: Flipped,
    pub is_dragging: bool,
    pub active_handle: Option<HandleName>,
    pub is_grouped: bool,
    pub polygons: Vec<Polygon>,
    pub config: CanvasConfig,
}

fn clone_polygons(polygons: &Vec<Polygon>) -> (copy: Vec<Polygon>)
    ensures
        copy@ == polygons@,
{
    let mut copy: Vec<Polygon> = Vec::new();
    let mut i: usize = 0;
    while i < polygons.len()
        invariant
            i <= polygons.len(),
            copy@ == polygons@.take(i as int),
        decreases polygons.len() - i,
    {
        copy.push(polygons[i].clone());
        proof {
            assert(copy@ =~= polygons@.take(i + 1));
        }
        i += 1;
    }
    proof {
        assert(polygons@.take(i as int) =~= polygons@);
    }
    copy
}

impl ResizableCanvas {
    /// The invariant of the canvas: the anchor lies inside the coordinate
    /// space and the far corner within `MIN_SIZE` of it, the mirror state is
    /// the sign of the size, the base size is not negative, and a handle is
    /// active exactly while dragging.
    pub open spec fn wf(&self) -> bool {
        &&& self.config.wf()
        &&& self.fixed_anchor.in_range()
        &&& far_edge_in_range(self.fixed_anchor.x as int, self.dimensions.width as int)
        &&& far_edge_in_range(self.fixed_anchor.y as int, self.dimensions.height as int)
        &&& self.flipped.x == flip_sign(self.dimensions.width as int)
        &&& self.flipped.y == flip_sign(self.dimensions.height as int)
        &&& 0 <= self.base_dimensions.width <= 2 * COORD_MAX + MIN_SIZE
        &&& 0 <= self.base_dimensions.height <= 2 * COORD_MAX + MIN_SIZE
        &&& self.is_dragging == (self.active_handle is Some)
    }

    /// Runtime test of `wf`.
    pub fn is_valid(&self) -> (b: bool)
        ensures
            b == self.wf(),
    {
        let anchor = self.fixed_anchor;
        let size = self.dimensions;
        let base = self.base_dimensions;
        let limit = 2 * COORD_MAX + MIN_SIZE;
        let far_corner = is_far_edge_in_range(anchor.x, size.width) && is_far_edge_in_range(
            anchor.y,
            size.height,
        );
        let flip_x: i32 = if size.width < 0 {
            -1
        } else {
            1
        };
        let flip_y: i32 = if size.height < 0 {
            -1
        } else {
            1
        };
        let mirrored_by_sign = self.flipped.x == flip_x && self.flipped.y == flip_y;
        let base_fits = 0 <= base.width && base.width <= limit && 0 <= base.height && base.height
            <= limit;
        let handle_while_dragging = self.is_dragging == self.active_handle.is_some();
        self.config.is_valid() && anchor.is_in_range() && far_corner && mirrored_by_sign
            && base_fits && handle_while_dragging
    }

    /// The rectangle that is drawn around the selection: the anchor is its
    /// left or top edge where the axis is upright, and its right or bottom
    /// edge where the axis is mirrored.
    pub open spec fn rendered_box(&self) -> BoundingBox {
        BoundingBox {
            x: (self.fixed_anchor.x + if self.flipped.x == -1 {
                self.dimensions.width as int
            } else {
                0
            }) as i64,
            y: (self.fixed_anchor.y + if self.flipped.y == -1 {
                self.dimensions.height as int
            } else {
                0
            }) as i64,
            width: signed_magnitude(1, self.dimensions.width as int) as i64,
            height: signed_magnitude(1, self.dimensions.height as int) as i64,
        }
    }

    /// The scale under which grouped shapes are drawn: per axis the mirror
    /// state times the magnitude of the size, over the base size.
    pub open spec fn scale_spec(&self) -> Scale {
        Scale {
            x: Ratio {
                num: signed_magnitude(self.flipped.x as int, self.dimensions.width as int) as i64,
                den: self.base_dimensions.width,
            },
            y: Ratio {
                num: signed_magnitude(self.flipped.y as int, self.dimensions.height as int) as i64,
                den: self.base_dimensions.height,
            },
        }
    }

    /// A canvas in its starting state: grouped, idle, with the geometry of
    /// `config`.
    pub fn create(config: CanvasConfig) -> (canvas: Self)
        requires
            config.wf(),
        ensures
            canvas.wf(),
            canvas.fixed_anchor == config.fixed_anchor,
            canvas.dimensions == config.dimensions,
            canvas.base_dimensions == config.dimensions,
            canvas.flipped == config.flipped,
            !canvas.is_dragging,
            canvas.active_handle is None,
            canvas.is_grouped,
            canvas.polygons@ == config.polygons@,
            canvas.config == config,
    {
        ResizableCanvas {
            fixed_anchor: config.fixed_anchor,
            dimensions: config.dimensions,
            base_dimensions: config.dimensions,
            flipped: config.flipped,
            is_dragging: false,
            active_handle: None,
            is_grouped: true,
            polygons: clone_polygons(&config.polygons),
            config,
        }
    }

    /// Runtime form of `rendered_box`.
    pub fn bounding_box(&self) -> (bbox: BoundingBox)
        requires
            self.wf(),
        ensures
            bbox == self.rendered_box(),
            bbox.wf(),
    {
        let width = self.dimensions.width;
        let height = self.dimensions.height;
        BoundingBox::new(
            self.fixed_anchor.x + if self.flipped.x == -1 {
                width
            } else {
                0
            },
            self.fixed_anchor.y + if self.flipped.y == -1 {
                height
            } else {
                0
            },
            if width < 0 {
                -width
            } else {
                width
            },
            if height < 0 {
                -height
            } else {
                height
            },
        )
    }

    /// Runtime form of `scale_spec`.
    pub fn scale(&self) -> (scale: Scale)
        requires
            self.wf(),
        ensures
            scale == self.scale_spec(),
    {
        Scale {
            x: Ratio::new(self.dimensions.width, self.base_dimensions.width),
            y: Ratio::new(self.dimensions.height, self.base_dimensions.height),
        }
    }

    /// The transform under which the grouped shapes are drawn.
    pub fn group_transform(&self) -> (t: GroupTransform)
        requires
            self.wf(),
        ensures
            t.scale == self.scale_spec(),
            t.position == self.fixed_anchor,
            t.flipped == self.flipped,
    {
        GroupTransform { scale: self.scale(), position: self.fixed_anchor, flipped: self.flipped }
    }

    /// The geometry of the selection.
    pub fn selected_group_properties(&self) -> (g: SelectedGroupProperties)
        ensures
            g.dimensions == self.dimensions,
            g.fixed_anchor == self.fixed_anchor,
            g.flipped == self.flipped,
    {
        SelectedGroupProperties {
            dimensions: self.dimensions,
            fixed_anchor: self.fixed_anchor,
            flipped: self.flipped,
        }
    }

    /// Where `handle` is drawn: its place on the rendered rectangle.
    pub fn handle_point(&self, handle: HandleName) -> (p: Point)
        requires
            self.wf(),
        ensures
            p.x == handle_position(handle, self.rendered_box()).0,
            p.y == handle_position(handle, self.rendered_box()).1,
    {
        let bbox = self.bounding_box();
        get_handle_config(handle).calc(handle, &bbox)
    }

    /// The markers of the eight handles on the rendered rectangle, edge
    /// handles first.
    pub fn handle_markers(&self) -> (markers: Vec<HandleMarker>)
        requires
            self.wf(),
        ensures
            markers@.len() == all_handles().len(),
            forall|i: int|
                0 <= i < markers@.len() ==> is_marker_of(
                    #[trigger] markers@[i],
                    all_handles()[i],
                    self.rendered_box(),
                ),
    {
        let bbox = self.bounding_box();
        let handles = get_all_handles();
        let mut markers: Vec<HandleMarker> = Vec::new();
        let mut i: usize = 0;
        while i < handles.len()
            invariant
                i <= handles.len(),
                handles@ == all_handles(),
                bbox.wf(),
                markers@.len() == i,
                forall|k: int|
                    0 <= k < i ==> is_marker_of(#[trigger] markers@[k], all_handles()[k], bbox),
            decreases handles.len() - i,
        {
            let handle = handles[i];
            let config = get_handle_config(handle);
            markers.push(
                HandleMarker {
                    handle,
                    position: config.calc(handle, &bbox),
                    radius: if config.is_corner {
                        HANDLE_SIZE_CORNER
                    } else {
                        HANDLE_SIZE_EDGE
                    },
                    cursor: config.cursor,
                },
            );
            i += 1;
        }
        markers
    }

    /// `post` is `pre` with `handle` grabbed: nothing else changes.
    pub open spec fn grab_step(pre: Self, handle: HandleName, post: Self) -> bool {
        post == (ResizableCanvas { is_dragging: true, active_handle: Some(handle), ..pre })
    }

    /// Starts a drag of `handle`.
    pub fn resize_start(&mut self, handle: HandleName) -> (redraw: bool)
        requires
            old(self).wf(),
        ensures
            final(self).wf(),
            Self::grab_step(*old(self), handle, *final(self)),
            redraw,
    {
        self.is_dragging = true;
        self.active_handle = Some(handle);
        true
    }

    /// A pointer move takes effect while a handle is active and the pointer
    /// lies inside the coordinate space.
    pub open spec fn resizable_to(&self, point: Point) -> bool {
        self.active_handle is Some && point.in_range()
    }

    /// `post` is `pre` after the pointer moved to `point`: where the move
    /// takes effect, size and anchor are those of the resize rule for the
    /// active handle, the size floored to `MIN_SIZE`, and the mirror state is
    /// the sign of the raw size; the base size, the shapes, the mode and the
    /// drag go on unchanged. Where it takes no effect, nothing changes.
    pub open spec fn resize_step(pre: Self, point: Point, post: Self) -> bool {
        if pre.resizable_to(point) {
            let raw = resize_table(
                pre.active_handle.unwrap(),
                pre.dimensions,
                point,
                pre.fixed_anchor,
            );
            &&& post.dimensions.width == floored_size(raw.0)
            &&& post.dimensions.height == floored_size(raw.1)
            &&& post.flipped.x == flip_sign(raw.0)
            &&& post.flipped.y == flip_sign(raw.1)
            &&& post.fixed_anchor.x == raw.2
            &&& post.fixed_anchor.y == raw.3
            &&& post.base_dimensions == pre.base_dimensions
            &&& post.is_dragging == pre.is_dragging
            &&& post.active_handle == pre.active_handle
            &&& post.is_grouped == pre.is_grouped
            &&& post.polygons == pre.polygons
            &&& post.config == pre.config
        } else {
            post == pre
        }
    }

    /// Resizes the selection for a pointer at `point`.
    ///
    /// After a move that took effect each dimension has a magnitude of at
    /// least `MIN_SIZE`, and an axis is mirrored exactly where its stored size
    /// is negative.
    pub fn resize(&mut self, point: Point) -> (redraw: bool)
        requires
            old(self).wf(),
        ensures
            final(self).wf(),
            Self::resize_step(*old(self), point, *final(self)),
            redraw == old(self).resizable_to(point),
            redraw ==> {
                &&& final(self).dimensions.width <= -MIN_SIZE || final(self).dimensions.width
                    >= MIN_SIZE
                &&& final(self).dimensions.height <= -MIN_SIZE || final(self).dimensions.height
                    >= MIN_SIZE
                &&& final(self).flipped.x == -1 <==> final(self).dimensions.width < 0
                &&& final(self).flipped.y == -1 <==> final(self).dimensions.height < 0
            },
    {
        let handle = match self.active_handle {
            Some(handle) => handle,
            None => {
                return false;
            },
        };
        if !point.is_in_range() {
            return false;
        }
        let transform = calculate_resize_transform(
            handle,
            &self.dimensions,
            &point,
            &self.fixed_anchor,
        );
        let stored = normalize_resize(&transform);
        self.flipped = stored.flipped;
        self.dimensions = stored.dimensions;
        self.fixed_anchor = stored.fixed_anchor;
        true
    }

    /// `post` is `pre` with no handle active: nothing else changes.
    pub open spec fn release_step(pre: Self, post: Self) -> bool {
        post == (ResizableCanvas { is_dragging: false, active_handle: None, ..pre })
    }

    /// Ends the drag.
    pub fn resize_end(&mut self) -> (redraw: bool)
        requires
            old(self).wf(),
        ensures
            final(self).wf(),
            Self::release_step(*old(self), *final(self)),
            redraw,
    {
        self.is_dragging = false;
        self.active_handle = None;
        true
    }

    /// The rectangle that anchor and size of a canvas spell out directly.
    pub open spec fn anchored_box(&self) -> BoundingBox {
        BoundingBox {
            x: self.fixed_anchor.x,
            y: self.fixed_anchor.y,
            width: self.dimensions.width,
            height: self.dimensions.height,
        }
    }

    /// Baking takes effect where the shapes have a corner and every corner
    /// has an image under the current scale and the translation to the
    /// anchor.
    pub open spec fn bakeable(&self) -> bool {
        &&& all_points(self.polygons@).len() > 0
        &&& polygons_transformable(
            self.polygons@,
            self.scale_spec().x,
            self.scale_spec().y,
            self.fixed_anchor.x as int,
            self.fixed_anchor.y as int,
        )
    }

    /// `post` is `pre` after baking. Where baking takes effect, the shapes
    /// are the images of the shapes of `pre` under its scale and the
    /// translation to its anchor, anchor and size spell out the bounding box
    /// of the new shapes, the base size is that size, nothing is mirrored and
    /// the shapes are ungrouped. Where it takes no effect, nothing changes.
    pub open spec fn bake_step(pre: Self, post: Self) -> bool {
        if pre.bakeable() {
            &&& are_polygon_images(
                pre.polygons@,
                post.polygons@,
                pre.scale_spec().x,
                pre.scale_spec().y,
                pre.fixed_anchor.x as int,
                pre.fixed_anchor.y as int,
            )
            &&& is_bounding_box(post.anchored_box(), all_points(post.polygons@))
            &&& post.base_dimensions == post.dimensions
            &&& post.flipped == (Flipped { x: 1, y: 1 })
            &&& !post.is_grouped
            &&& post.is_dragging == pre.is_dragging
            &&& post.active_handle == pre.active_handle
            &&& post.config == pre.config
        } else {
            post == pre
        }
    }

    /// Writes the current scale and position into the corners of the shapes
    /// and ungroups them.
    pub fn apply_group_transform(&mut self) -> (redraw: bool)
        requires
            old(self).wf(),
        ensures
            final(self).wf(),
            Self::bake_step(*old(self), *final(self)),
            redraw,
    {
        let scale = self.scale();
        let moved = transform_polygons(
            self.polygons.as_slice(),
            scale.x,
            scale.y,
            self.fixed_anchor.x,
            self.fixed_anchor.y,
        );
        if let Some(images) = moved {
            proof {
                lemma_all_points_of_images(
                    self.polygons@,
                    images@,
                    scale.x,
                    scale.y,
                    self.fixed_anchor.x as int,
                    self.fixed_anchor.y as int,
                );
            }
            if let Some(bbox) = calculate_bounding_box(images.as_slice()) {
                self.polygons = images;
                self.fixed_anchor = Point::new(bbox.x, bbox.y);
                self.dimensions = Dimensions::new(bbox.width, bbox.height);
                self.base_dimensions = Dimensions::new(bbox.width, bbox.height);
                self.flipped = Flipped::new(1, 1);
                self.is_grouped = false;
            }
        }
        true
    }

    /// No two corners lie farther apart on an axis than the coordinate space
    /// reaches from its origin.
    pub open spec fn spread_fits(points: Seq<Point>) -> bool {
        forall|i: int, j: int|
            0 <= i < points.len() && 0 <= j < points.len() ==> {
                &&& (#[trigger] points[i]).x - (#[trigger] points[j]).x <= COORD_MAX
                &&& points[i].y - points[j].y <= COORD_MAX
            }
    }

    /// Regrouping takes effect where the shapes have a corner and the
    /// corners, taken relative to their bounding box, stay inside the
    /// coordinate space.
    pub open spec fn regroupable(&self) -> bool {
        &&& all_points(self.polygons@).len() > 0
        &&& Self::spread_fits(all_points(self.polygons@))
    }

    /// `post` is `pre` after regrouping. Where regrouping takes effect,
    /// anchor and size spell out the bounding box of the shapes of `pre`, the
    /// shapes are those of `pre` moved so that the corner of that box is the
    /// origin, the base size is the size, nothing is mirrored and the shapes
    /// are grouped. Where it takes no effect, nothing changes.
    pub open spec fn regroup_step(pre: Self, post: Self) -> bool {
        if pre.regroupable() {
            &&& is_bounding_box(post.anchored_box(), all_points(pre.polygons@))
            &&& are_polygon_images(
                pre.polygons@,
                post.polygons@,
                Ratio { num: 1, den: 1 },
                Ratio { num: 1, den: 1 },
                -post.fixed_anchor.x,
                -post.fixed_anchor.y,
            )
            &&& post.base_dimensions == post.dimensions
            &&& post.flipped == (Flipped { x: 1, y: 1 })
            &&& post.is_grouped
            &&& post.is_dragging == pre.is_dragging
            &&& post.active_handle == pre.active_handle
            &&& post.config == pre.config
        } else {
            post == pre
        }
    }

    /// Makes the corners of the shapes relative to their bounding box and
    /// groups them.
    pub fn regroup_elements(&mut self) -> (redraw: bool)
        requires
            old(self).wf(),
        ensures
            final(self).wf(),
            Self::regroup_step(*old(self), *final(self)),
            redraw,
    {
        if let Some(bbox) = calculate_bounding_box(self.polygons.as_slice()) {
            let local = convert_to_local_coordinates(self.polygons.as_slice(), &bbox);
            proof {
                lemma_local_iff_spread_fits(self.polygons@, bbox);
            }
            if let Some(images) = local {
                self.polygons = images;
                self.fixed_anchor = Point::new(bbox.x, bbox.y);
                self.dimensions = Dimensions::new(bbox.width, bbox.height);
                self.base_dimensions = Dimensions::new(bbox.width, bbox.height);
                self.flipped = Flipped::new(1, 1);
                self.is_grouped = true;
            }
        }
        true
    }

    /// `post` is `pre` after a reset: the geometry and the shapes of the
    /// configuration, grouped and idle.
    pub open spec fn reset_step(pre: Self, post: Self) -> bool {
        &&& post.polygons@ == pre.config.polygons@
        &&& post.dimensions == pre.config.dimensions
        &&& post.base_dimensions == pre.config.dimensions
        &&& post.flipped == pre.config.flipped
        &&& post.fixed_anchor == pre.config.fixed_anchor
        &&& post.is_grouped
        &&& !post.is_dragging
        &&& post.active_handle is None
        &&& post.config == pre.config
    }

    /// Restores the starting state.
    pub fn reset(&mut self) -> (redraw: bool)
        requires
            old(self).wf(),
        ensures
            final(self).wf(),
            Self::reset_step(*old(self), *final(self)),
            redraw,
    {
        self.polygons = clone_polygons(&self.config.polygons);
        self.dimensions = self.config.dimensions;
        self.base_dimensions = self.config.dimensions;
        self.flipped = self.config.flipped;
        self.fixed_anchor = self.config.fixed_anchor;
        self.is_grouped = true;
        self.is_dragging = false;
        self.active_handle = None;
        true
    }

    /// `post` is the state that follows `pre` on the event `msg`.
    pub open spec fn step(pre: Self, msg: Msg, post: Self) -> bool {
        match msg {
            Msg::ResizeStart(handle) => Self::grab_step(pre, handle, post),
            Msg::Resize(point) => Self::resize_step(pre, point, post),
            Msg::ResizeEnd => Self::release_step(pre, post),
            Msg::ApplyGroupTransform => Self::bake_step(pre, post),
            Msg::RegroupElements => Self::regroup_step(pre, post),
            Msg::Reset => Self::reset_step(pre, post),
        }
    }

    /// Handles one event. The result says whether the canvas is to be drawn
    /// again: always, but after a pointer move that took no effect.
    pub fn update(&mut self, msg: Msg) -> (redraw: bool)
        requires
            old(self).wf(),
        ensures
            final(self).wf(),
            Self::step(*old(self), msg, *final(self)),
            redraw == match msg {
                Msg::Resize(point) => old(self).resizable_to(point),
                _ => true,
            },
    {
        match msg {
            Msg::ResizeStart(handle) => self.resize_start(handle),
            Msg::Resize(point) => self.resize(point),
            Msg::ResizeEnd => self.resize_end(),
            Msg::ApplyGroupTransform => self.apply_group_transform(),
            Msg::RegroupElements => self.regroup_elements(),
            Msg::Reset => self.reset(),
        }
    }
}

/// Moving the corners of a shape list to the corner of their bounding box
/// keeps them inside the coordinate space exactly where no two corners lie
/// too far apart.
pub proof fn lemma_local_iff_spread_fits(polygons: Seq<Polygon>, bbox: BoundingBox)
    requires
        is_bounding_box(bbox, all_points(polygons)),
        crate::points_text::all_in_range(all_points(polygons)),
    ensures
        polygons_transformable(
            polygons,
            Ratio { num: 1, den: 1 },
            Ratio { num: 1, den: 1 },
            -bbox.x,
            -bbox.y,
        ) <==> ResizableCanvas::spread_fits(all_points(polygons)),
{
    let one = Ratio { num: 1, den: 1 };
    let points = all_points(polygons);
    lemma_transformable_all_points(polygons, one, one, -bbox.x, -bbox.y);
    let at_min_x = choose|i: int| 0 <= i < points.len() && (#[trigger] points[i]).x == bbox.x;
    let at_max_x = choose|i: int|
        0 <= i < points.len() && (#[trigger] points[i]).x == bbox.x + bbox.width;
    let at_min_y = choose|i: int| 0 <= i < points.len() && (#[trigger] points[i]).y == bbox.y;
    let at_max_y = choose|i: int|
        0 <= i < points.len() && (#[trigger] points[i]).y == bbox.y + bbox.height;
    assert forall|i: int| 0 <= i < points.len() implies {
        &&& crate::utils::transformed_coord((#[trigger] points[i]).x as int, one, -bbox.x)
            == points[i].x - bbox.x
        &&& crate::utils::transformed_coord(points[i].y as int, one, -bbox.y) == points[i].y
            - bbox.y
    } by {
        lemma_unit_scale(points[i].x as int, 1);
        lemma_unit_scale(points[i].y as int, 1);
    }
    if all_transformable(points, one, one, -bbox.x, -bbox.y) {
        assert(transformed_point(points[at_max_x], one, one, -bbox.x, -bbox.y) is Some);
        assert(transformed_point(points[at_max_y], one, one, -bbox.x, -bbox.y) is Some);
        assert(ResizableCanvas::spread_fits(points));
    }
    if ResizableCanvas::spread_fits(points) {
        assert forall|i: int| 0 <= i < points.len() implies transformed_point(
            #[trigger] points[i],
            one,
            one,
            -bbox.x,
            -bbox.y,
        ) is Some by {
            assert(points[i].x - points[at_min_x].x <= COORD_MAX);
            assert(points[i].y - points[at_min_y].y <= COORD_MAX);
        }
    }
}

} // verus!

//! What baking and regrouping keep: the rectangle that is drawn around the
//! selection, and the places where the corners of the shapes are drawn.

use vstd::prelude::*;
use crate::components::resizable_canvas::{lemma_local_iff_spread_fits, ResizableCanvas};
use crate::points_text::{all_in_range, decode_points, lemma_decode_encode, lemma_decoded_in_range};
use crate::types::{BoundingBox, Flipped, Point, Ratio};
use crate::utils::{
    all_points, all_transformable, is_bounding_box, is_polygon_image, lemma_all_points_in_range,
    lemma_all_points_of_images, lemma_bounding_box_unique, lemma_scaled_extent,
    lemma_transformable_all_points, lemma_unit_scale, transformed_coord, transformed_point,
    transformed_points,
};

verus! {

/// Where the corners of each shape are drawn: as they are while ungrouped,
/// under the scale and the translation to the anchor while grouped.
pub open spec fn absolute_shapes(canvas: ResizableCanvas) -> Seq<Seq<Point>> {
    Seq::new(
        canvas.polygons@.len(),
        |i: int|
            {
                let corners = decode_points(canvas.polygons@[i].points@);
                if canvas.is_grouped {
                    transformed_points(
                        corners,
                        canvas.scale_spec().x,
                        canvas.scale_spec().y,
                        canvas.fixed_anchor.x as int,
                        canvas.fixed_anchor.y as int,
                    )
                } else {
                    corners
                }
            },
    )
}

/// An ungrouped canvas is settled: anchor and size spell out the bounding
/// box of its shapes, the base size is the size, and nothing is mirrored.
pub open spec fn ungrouped_settled(canvas: ResizableCanvas) -> bool {
    &&& !canvas.is_grouped
    &&& canvas.flipped == (Flipped { x: 1, y: 1 })
    &&& canvas.base_dimensions == canvas.dimensions
    &&& is_bounding_box(canvas.anchored_box(), all_points(canvas.polygons@))
}

/// A grouped canvas is settled: its base size is positive, and the bounding
/// box of its relative corners reaches from the origin over the base size.
pub open spec fn grouped_settled(canvas: ResizableCanvas) -> bool {
    &&& canvas.is_grouped
    &&& canvas.base_dimensions.width > 0
    &&& canvas.base_dimensions.height > 0
    &&& is_bounding_box(
        BoundingBox {
            x: 0,
            y: 0,
            width: canvas.base_dimensions.width,
            height: canvas.base_dimensions.height,
        },
        all_points(canvas.polygons@),
    )
}

/// Baking that takes effect leaves a settled ungrouped canvas.
pub proof fn lemma_bake_settles(pre: ResizableCanvas, post: ResizableCanvas)
    requires
        pre.bakeable(),
        ResizableCanvas::bake_step(pre, post),
    ensures
        ungrouped_settled(post),
{
}

/// A pointer move keeps a settled grouped canvas settled.
pub proof fn lemma_resize_keeps_settled(pre: ResizableCanvas, point: Point, post: ResizableCanvas)
    requires
        grouped_settled(pre),
        ResizableCanvas::resize_step(pre, point, post),
    ensures
        grouped_settled(post),
{
}

/// Regrouping a settled ungrouped canvas keeps the rectangle that is drawn.
/// Where the bounding box of the shapes has a positive width and height, it
/// also keeps every corner where it is drawn, and leaves a settled grouped
/// canvas.
pub proof fn lemma_regroup_keeps_picture(pre: ResizableCanvas, post: ResizableCanvas)
    requires
        pre.wf(),
        ungrouped_settled(pre),
        ResizableCanvas::regroup_step(pre, post),
    ensures
        post.rendered_box() == pre.rendered_box(),
        pre.dimensions.width > 0 && pre.dimensions.height > 0 ==> absolute_shapes(post)
            == absolute_shapes(pre),
        pre.regroupable() && pre.dimensions.width > 0 && pre.dimensions.height > 0
            ==> grouped_settled(post),
{
    if pre.regroupable() {
        let one = Ratio { num: 1, den: 1 };
        let corners = all_points(pre.polygons@);
        lemma_bounding_box_unique(pre.anchored_box(), post.anchored_box(), corners);
        let ax = pre.fixed_anchor.x as int;
        let ay = pre.fixed_anchor.y as int;
        let width = pre.dimensions.width as int;
        let height = pre.dimensions.height as int;
        assert(all_in_range(corners)) by {
            lemma_all_points_in_range(pre.polygons@);
        }
        lemma_local_iff_spread_fits(pre.polygons@, pre.anchored_box());
        lemma_transformable_all_points(pre.polygons@, one, one, -ax, -ay);
        lemma_all_points_of_images(pre.polygons@, post.polygons@, one, one, -ax, -ay);
        if width > 0 && height > 0 {
            let back_x = post.scale_spec().x;
            let back_y = post.scale_spec().y;
            assert(back_x == Ratio { num: width as i64, den: width as i64 });
            assert(back_y == Ratio { num: height as i64, den: height as i64 });
            assert forall|i: int| 0 <= i < pre.polygons@.len() implies absolute_shapes(post)[i]
                == absolute_shapes(pre)[i] by {
                let drawn = decode_points(pre.polygons@[i].points@);
                let local = transformed_points(drawn, one, one, -ax, -ay);
                assert(is_polygon_image(
                    pre.polygons@[i],
                    post.polygons@[i],
                    one,
                    one,
                    -ax,
                    -ay,
                ));
                assert(all_transformable(drawn, one, one, -ax, -ay));
                assert forall|k: int| 0 <= k < drawn.len() implies (#[trigger] local[k]).in_range()
                    && transformed_point(local[k], back_x, back_y, ax, ay) == Some(drawn[k]) by {
                    assert(transformed_point(drawn[k], one, one, -ax, -ay) is Some);
                    lemma_unit_scale(drawn[k].x as int, 1);
                    lemma_unit_scale(drawn[k].y as int, 1);
                    lemma_unit_scale(local[k].x as int, width);
                    lemma_unit_scale(local[k].y as int, height);
                    lemma_decoded_in_range(pre.polygons@[i].points@);
                    assert(drawn[k].in_range());
                }
                lemma_decode_encode(local);
                assert(transformed_points(local, back_x, back_y, ax, ay) =~= drawn);
            }
            assert(absolute_shapes(post) =~= absolute_shapes(pre));
            let moved = all_points(post.polygons@);
            let frame = BoundingBox { x: 0, y: 0, width: width as i64, height: height as i64 };
            assert forall|k: int| 0 <= k < corners.len() implies (#[trigger] moved[k]).x
                == corners[k].x - ax && moved[k].y == corners[k].y - ay by {
                assert(transformed_point(corners[k], one, one, -ax, -ay) is Some);
                lemma_unit_scale(corners[k].x as int, 1);
                lemma_unit_scale(corners[k].y as int, 1);
            }
            let at_min_x = choose|i: int|
                0 <= i < corners.len() && (#[trigger] corners[i]).x == ax;
            let at_max_x = choose|i: int|
                0 <= i < corners.len() && (#[trigger] corners[i]).x == ax + width;
            let at_min_y = choose|i: int|
                0 <= i < corners.len() && (#[trigger] corners[i]).y == ay;
            let at_max_y = choose|i: int|
                0 <= i < corners.len() && (#[trigger] corners[i]).y == ay + height;
            assert(moved[at_min_x].x == 0);
            assert(moved[at_max_x].x == width);
            assert(moved[at_min_y].y == 0);
            assert(moved[at_max_y].y == height);
            assert forall|k: int| 0 <= k < moved.len() implies {
                &&& frame.x <= (#[trigger] moved[k]).x <= frame.x + frame.width
                &&& frame.y <= moved[k].y <= frame.y + frame.height
            } by {
                assert(corners[k].x >= ax);
            }
            assert(is_bounding_box(frame, moved));
        }
    }
}

/// Baking a settled grouped canvas keeps the rectangle that is drawn and
/// keeps every corner where it is drawn, whatever size and mirror state the
/// selection has been dragged to.
pub proof fn lemma_bake_keeps_picture(pre: ResizableCanvas, post: ResizableCanvas)
    requires
        pre.wf(),
        grouped_settled(pre),
        ResizableCanvas::bake_step(pre, post),
    ensures
        post.rendered_box() == pre.rendered_box(),
        absolute_shapes(post) == absolute_shapes(pre),
{
    if pre.bakeable() {
        let sx = pre.scale_spec().x;
        let sy = pre.scale_spec().y;
        let ax = pre.fixed_anchor.x as int;
        let ay = pre.fixed_anchor.y as int;
        let width = pre.dimensions.width as int;
        let height = pre.dimensions.height as int;
        let base_w = pre.base_dimensions.width as int;
        let base_h = pre.base_dimensions.height as int;
        assert(sx == Ratio { num: width as i64, den: base_w as i64 });
        assert(sy == Ratio { num: height as i64, den: base_h as i64 });
        let local = all_points(pre.polygons@);
        lemma_all_points_of_images(pre.polygons@, post.polygons@, sx, sy, ax, ay);
        lemma_transformable_all_points(pre.polygons@, sx, sy, ax, ay);
        let moved = all_points(post.polygons@);
        let frame = pre.rendered_box();
        assert forall|k: int| 0 <= k < local.len() implies {
            &&& (#[trigger] moved[k]).x == transformed_coord(local[k].x as int, sx, ax)
            &&& moved[k].y == transformed_coord(local[k].y as int, sy, ay)
            &&& frame.x <= moved[k].x <= frame.x + frame.width
            &&& frame.y <= moved[k].y <= frame.y + frame.height
        } by {
            assert(transformed_point(local[k], sx, sy, ax, ay) is Some);
            lemma_scaled_extent(local[k].x as int, width, base_w);
            lemma_scaled_extent(local[k].y as int, height, base_h);
        }
        let at_min_x = choose|i: int| 0 <= i < local.len() && (#[trigger] local[i]).x == 0;
        let at_max_x = choose|i: int| 0 <= i < local.len() && (#[trigger] local[i]).x == 0 + base_w;
        let at_min_y = choose|i: int| 0 <= i < local.len() && (#[trigger] local[i]).y == 0;
        let at_max_y = choose|i: int| 0 <= i < local.len() && (#[trigger] local[i]).y == 0 + base_h;
        lemma_scaled_extent(local[at_min_x].x as int, width, base_w);
        lemma_scaled_extent(local[at_max_x].x as int, width, base_w);
        lemma_scaled_extent(local[at_min_y].y as int, height, base_h);
        lemma_scaled_extent(local[at_max_y].y as int, height, base_h);
        assert(moved[at_min_x].x == ax);
        assert(moved[at_max_x].x == ax + width);
        assert(moved[at_min_y].y == ay);
        assert(moved[at_max_y].y == ay + height);
        assert(is_bounding_box(frame, moved));
        lemma_bounding_box_unique(frame, post.anchored_box(), moved);
        assert forall|i: int| 0 <= i < pre.polygons@.len() implies absolute_shapes(post)[i]
            == absolute_shapes(pre)[i] by {
            let corners = decode_points(pre.polygons@[i].points@);
            let images = transformed_points(corners, sx, sy, ax, ay);
            assert(is_polygon_image(pre.polygons@[i], post.polygons@[i], sx, sy, ax, ay));
            assert(all_transformable(corners, sx, sy, ax, ay));
            assert forall|k: int| 0 <= k < images.len() implies (#[trigger] images[k]).in_range() by {
                assert(transformed_point(corners[k], sx, sy, ax, ay) is Some);
            }
            lemma_decode_encode(images);
        }
        assert(absolute_shapes(post) =~= absolute_shapes(pre));
    }
}

/// Regrouping after a bake that took effect keeps the rectangle that is
/// drawn, and, where that rectangle has a positive width and height, every
/// corner where it is drawn.
pub proof fn lemma_regroup_after_bake(
    start: ResizableCanvas,
    baked: ResizableCanvas,
    regrouped: ResizableCanvas,
)
    requires
        start.bakeable(),
        ResizableCanvas::bake_step(start, baked),
        baked.wf(),
        ResizableCanvas::regroup_step(baked, regrouped),
    ensures
        regrouped.rendered_box() == baked.rendered_box(),
        baked.dimensions.width > 0 && baked.dimensions.height > 0 ==> absolute_shapes(regrouped)
            == absolute_shapes(baked),
{
    lemma_bake_settles(start, baked);
    lemma_regroup_keeps_picture(baked, regrouped);
}

/// Baking after a regrouping that took effect gives back the rectangle and
/// the corners of the settled ungrouped canvas that was regrouped, where its
/// rectangle has a positive width and height.
pub proof fn lemma_bake_after_regroup(
    start: ResizableCanvas,
    regrouped: ResizableCanvas,
    baked: ResizableCanvas,
)
    requires
        start.wf(),
        ungrouped_settled(start),
        start.regroupable(),
        start.dimensions.width > 0 && start.dimensions.height > 0,
        ResizableCanvas::regroup_step(start, regrouped),
        regrouped.wf(),
        ResizableCanvas::bake_step(regrouped, baked),
    ensures
        baked.rendered_box() == start.rendered_box(),
        absolute_shapes(baked) == absolute_shapes(start),
{
    lemma_regroup_keeps_picture(start, regrouped);
    lemma_bake_keeps_picture(regrouped, baked);
}

/// A pointer move to the place of the move before it changes nothing.
pub proof fn lemma_resize_idempotent(
    pre: ResizableCanvas,
    point: Point,
    moved: ResizableCanvas,
    again: ResizableCanvas,
)
    requires
        ResizableCanvas::resize_step(pre, point, moved),
        ResizableCanvas::resize_step(moved, point, again),
    ensures
        again == moved,
{
}

} // verus!

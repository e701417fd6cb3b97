//! Reading and writing corner lists, the scale-and-translate transform, and
//! the bounding box of a shape list.

use vstd::prelude::*;
use vstd::arithmetic::div_mod::{
    lemma_basic_div, lemma_div_is_ordered, lemma_div_is_ordered_by_denominator,
    lemma_div_multiples_vanish_fancy, lemma_div_pos_is_pos, lemma_fundamental_div_mod,
    lemma_mod_bound,
};
use crate::constants::SVG_SIZE;
use crate::decimal::{format_decimal, parse_decimal};
use crate::points_text::{
    all_in_range, decode_points, encode_points, is_space, lemma_decode_encode,
    lemma_decoded_in_range, lemma_field_len, lemma_token_len, pair_text, parse_pair,
};
use crate::types::{BoundingBox, Point, Polygon, Ratio, COORD_MAX};

verus! {

fn is_space_char(c: char) -> (b: bool)
    ensures
        b == is_space(c),
{
    c == ' ' || ('\u{9}' <= c && c <= '\u{d}') || c == '\u{85}' || c == '\u{a0}' || c
        == '\u{1680}' || ('\u{2000}' <= c && c <= '\u{200a}') || c == '\u{2028}' || c
        == '\u{2029}' || c == '\u{202f}' || c == '\u{205f}' || c == '\u{3000}'
}

fn to_chars(s: &str) -> (v: Vec<char>)
    ensures
        v@ == s@,
{
    let mut v: Vec<char> = Vec::new();
    for c in it: s.chars()
        invariant
            v@ == it.seq().take(it.index() as int),
            it.seq() == s@,
    {
        v.push(c);
    }
    v
}

/// Reads the token that `chars` holds from `lo` up to `hi`.
fn parse_pair_at(chars: &Vec<char>, lo: usize, hi: usize) -> (r: Option<Point>)
    requires
        lo <= hi <= chars.len(),
    ensures
        r == parse_pair(chars@.subrange(lo as int, hi as int)),
{
    let ghost token = chars@.subrange(lo as int, hi as int);
    let mut k: usize = lo;
    while k < hi && chars[k] != ','
        invariant
            lo <= k <= hi <= chars.len(),
            forall|i: int| lo <= i < k ==> #[trigger] chars@[i] != ',',
        decreases hi - k,
    {
        k += 1;
    }
    proof {
        assert forall|i: int| 0 <= i < k - lo implies #[trigger] token[i] != ',' by {
            assert(token[i] == chars@[lo + i]);
        }
        if k < hi {
            assert(token[k - lo] == chars@[k as int]);
        }
        lemma_field_len(token, k - lo);
    }
    if k == hi {
        return None;
    }
    let ghost second = token.skip(k - lo + 1);
    let mut j: usize = k + 1;
    while j < hi
        invariant
            lo <= k < j <= hi <= chars.len(),
            token == chars@.subrange(lo as int, hi as int),
            second == token.skip(k - lo + 1),
            crate::points_text::field_len(token) == k - lo,
            forall|i: int| k < i < j ==> #[trigger] chars@[i] != ',',
        decreases hi - j,
    {
        if chars[j] == ',' {
            proof {
                assert(second[j - k - 1] == ',');
            }
            return None;
        }
        j += 1;
    }
    proof {
        assert forall|i: int| 0 <= i < second.len() implies #[trigger] second[i] != ',' by {
            assert(second[i] == chars@[k + 1 + i]);
        }
        assert(token.take(k - lo) =~= chars@.subrange(lo as int, k as int));
        assert(second =~= chars@.subrange(k + 1, hi as int));
    }
    let x = parse_decimal(chars, lo, k);
    let y = parse_decimal(chars, k + 1, hi);
    match (x, y) {
        (Some(x), Some(y)) => Some(Point::new(x, y)),
        _ => None,
    }
}

/// Reads a corner list.
///
/// The result holds the point of every token that denotes one, in the order
/// of the text; a token that denotes none is passed over.
pub fn parse_points(points_string: &str) -> (points: Vec<Point>)
    ensures
        points@ == decode_points(points_string@),
        all_in_range(points@),
{
    let chars = to_chars(points_string);
    let mut points: Vec<Point> = Vec::new();
    let mut i: usize = 0;
    proof {
        assert(chars@.skip(0) =~= chars@);
        assert(points@ + decode_points(chars@) =~= decode_points(chars@));
    }
    while i < chars.len()
        invariant
            i <= chars.len(),
            decode_points(chars@) == points@ + decode_points(chars@.skip(i as int)),
        decreases chars.len() - i,
    {
        let ghost rest = chars@.skip(i as int);
        if is_space_char(chars[i]) {
            proof {
                assert(rest.skip(1) =~= chars@.skip(i + 1));
            }
            i += 1;
        } else {
            let mut j: usize = i + 1;
            while j < chars.len() && !is_space_char(chars[j])
                invariant
                    i < j <= chars.len(),
                    forall|k: int| i <= k < j ==> !is_space(#[trigger] chars@[k]),
                decreases chars.len() - j,
            {
                j += 1;
            }
            proof {
                assert forall|k: int| 0 <= k < j - i implies !is_space(#[trigger] rest[k]) by {
                    assert(rest[k] == chars@[i + k]);
                }
                if j < chars.len() {
                    assert(rest[j - i] == chars@[j as int]);
                }
                lemma_token_len(rest, j - i);
                assert(rest.take(j - i) =~= chars@.subrange(i as int, j as int));
                assert(rest.skip(j - i) =~= chars@.skip(j as int));
            }
            let ghost before = points@;
            let ghost after = decode_points(chars@.skip(j as int));
            match parse_pair_at(&chars, i, j) {
                Some(p) => {
                    points.push(p);
                    proof {
                        assert(before + (seq![p] + after) =~= points@ + after);
                    }
                },
                None => {},
            }
            i = j;
        }
    }
    proof {
        assert(chars@.skip(i as int).len() == 0);
        assert(points@ + Seq::<Point>::empty() =~= points@);
        lemma_decoded_in_range(points_string@);
    }
    points
}

/// Writes a corner list: one `x,y` token per point, each coordinate as its
/// shortest numeral, with one blank between neighbours.
pub fn stringify_points(points_array: &[Point]) -> (text: String)
    ensures
        text@ == encode_points(points_array@),
{
    let mut text = String::new();
    let mut i: usize = 0;
    while i < points_array.len()
        invariant
            i <= points_array.len(),
            text@ == encode_points(points_array@.take(i as int)),
        decreases points_array.len() - i,
    {
        let ghost before = text@;
        if i > 0 {
            text.append(" ");
        }
        let p = points_array[i];
        let x_text = format_decimal(p.x);
        let y_text = format_decimal(p.y);
        text.append(x_text.as_str());
        text.append(",");
        text.append(y_text.as_str());
        proof {
            reveal_strlit(" ");
            reveal_strlit(",");
            let prev = points_array@.take(i as int);
            let next = points_array@.take(i + 1);
            assert(next.drop_last() =~= prev);
            assert(next.last() == p);
            assert(next[0] == points_array@[0]);
            if i == 0 {
                assert(text@ =~= pair_text(p));
            } else {
                assert(text@ =~= before + seq![' '] + pair_text(p));
            }
        }
        i += 1;
    }
    proof {
        assert(points_array@.take(i as int) =~= points_array@);
    }
    text
}

/// The integer nearest to `n / d`, for a positive `d`; a tie goes away from
/// zero.
pub open spec fn round_div(n: int, d: int) -> int {
    if n >= 0 {
        (2 * n + d) / (2 * d)
    } else {
        -((2 * (-n) + d) / (2 * d))
    }
}

/// A coordinate scaled by `scale` and then moved by `translate`.
pub open spec fn transformed_coord(p: int, scale: Ratio, translate: int) -> int {
    translate + round_div(p * scale.num, scale.den as int)
}

/// The image of a point under scaling and translation, where both factors are
/// defined and the image lies inside the coordinate space.
pub open spec fn transformed_point(
    p: Point,
    scale_x: Ratio,
    scale_y: Ratio,
    translate_x: int,
    translate_y: int,
) -> Option<Point> {
    let x = transformed_coord(p.x as int, scale_x, translate_x);
    let y = transformed_coord(p.y as int, scale_y, translate_y);
    if scale_x.wf() && scale_y.wf() && -COORD_MAX <= x <= COORD_MAX && -COORD_MAX <= y
        <= COORD_MAX {
        Some(Point { x: x as i64, y: y as i64 })
    } else {
        None
    }
}

/// Bound on the numerators that `round_div_wide` takes: two to the 126th.
pub const WIDE_MAX: i128 = 0x4000_0000_0000_0000_0000_0000_0000_0000;

fn round_div_wide(n: i128, d: i64) -> (q: i128)
    requires
        d > 0,
        -WIDE_MAX <= n <= WIDE_MAX,
    ensures
        q == round_div(n as int, d as int),
        -WIDE_MAX - WIDE_MAX / 2 <= q <= WIDE_MAX + WIDE_MAX / 2,
{
    let magnitude: u128 = if n < 0 {
        (-n) as u128
    } else {
        n as u128
    };
    let numerator: u128 = 2 * magnitude + d as u128;
    let divisor: u128 = 2 * (d as u128);
    let quotient: u128 = numerator / divisor;
    proof {
        lemma_div_is_ordered_by_denominator(numerator as int, 2, divisor as int);
    }
    if n < 0 {
        -(quotient as i128)
    } else {
        quotient as i128
    }
}

fn transform_coord(p: i64, scale: Ratio, translate: i128) -> (r: Option<i64>)
    requires
        -0x8000_0000_0000_0000 <= translate <= 0x8000_0000_0000_0000,
    ensures
        r == if scale.wf() && -COORD_MAX <= transformed_coord(p as int, scale, translate as int)
            <= COORD_MAX {
            Some(transformed_coord(p as int, scale, translate as int) as i64)
        } else {
            None
        },
{
    if scale.den <= 0 {
        return None;
    }
    assert(-WIDE_MAX <= (p as int) * (scale.num as int) <= WIDE_MAX) by (nonlinear_arith)
        requires
            -0x8000_0000_0000_0000 <= p <= 0x7fff_ffff_ffff_ffff,
            -0x8000_0000_0000_0000 <= scale.num <= 0x7fff_ffff_ffff_ffff,
            WIDE_MAX == 0x4000_0000_0000_0000_0000_0000_0000_0000,
    ;
    let n: i128 = (p as i128) * (scale.num as i128);
    let q = round_div_wide(n, scale.den);
    let total: i128 = translate + q;
    if -(COORD_MAX as i128) <= total && total <= COORD_MAX as i128 {
        Some(total as i64)
    } else {
        None
    }
}

/// Scales a point by the two factors and then moves it by the translation.
///
/// Gives nothing where a factor has no positive denominator or the image
/// leaves the coordinate space.
pub fn transform_point(
    point: &Point,
    scale_x: Ratio,
    scale_y: Ratio,
    translate_x: i64,
    translate_y: i64,
) -> (r: Option<Point>)
    ensures
        r == transformed_point(*point, scale_x, scale_y, translate_x as int, translate_y as int),
{
    transform_point_wide(point, scale_x, scale_y, translate_x as i128, translate_y as i128)
}

fn transform_point_wide(
    point: &Point,
    scale_x: Ratio,
    scale_y: Ratio,
    translate_x: i128,
    translate_y: i128,
) -> (r: Option<Point>)
    requires
        -0x8000_0000_0000_0000 <= translate_x <= 0x8000_0000_0000_0000,
        -0x8000_0000_0000_0000 <= translate_y <= 0x8000_0000_0000_0000,
    ensures
        r == transformed_point(*point, scale_x, scale_y, translate_x as int, translate_y as int),
{
    match transform_coord(point.x, scale_x, translate_x) {
        Some(x) => match transform_coord(point.y, scale_y, translate_y) {
            Some(y) => Some(Point::new(x, y)),
            None => None,
        },
        None => None,
    }
}

/// Every point of the list has an image.
pub open spec fn all_transformable(
    points: Seq<Point>,
    scale_x: Ratio,
    scale_y: Ratio,
    translate_x: int,
    translate_y: int,
) -> bool {
    forall|i: int|
        0 <= i < points.len() ==> transformed_point(
            #[trigger] points[i],
            scale_x,
            scale_y,
            translate_x,
            translate_y,
        ) is Some
}

/// The images of the points of a list, in order.
pub open spec fn transformed_points(
    points: Seq<Point>,
    scale_x: Ratio,
    scale_y: Ratio,
    translate_x: int,
    translate_y: int,
) -> Seq<Point> {
    Seq::new(
        points.len(),
        |i: int| transformed_point(points[i], scale_x, scale_y, translate_x, translate_y).unwrap(),
    )
}

/// Every corner of every polygon has an image.
pub open spec fn polygons_transformable(
    polygons: Seq<Polygon>,
    scale_x: Ratio,
    scale_y: Ratio,
    translate_x: int,
    translate_y: int,
) -> bool {
    forall|i: int|
        0 <= i < polygons.len() ==> all_transformable(
            decode_points((#[trigger] polygons[i]).points@),
            scale_x,
            scale_y,
            translate_x,
            translate_y,
        )
}

/// `image` is `polygon` with every corner replaced by its image: the same
/// paint, and as corner list the text written for the images of the corners
/// that the polygon's text denotes.
pub open spec fn is_polygon_image(
    polygon: Polygon,
    image: Polygon,
    scale_x: Ratio,
    scale_y: Ratio,
    translate_x: int,
    translate_y: int,
) -> bool {
    &&& image.points@ == encode_points(
        transformed_points(
            decode_points(polygon.points@),
            scale_x,
            scale_y,
            translate_x,
            translate_y,
        ),
    )
    &&& image.fill == polygon.fill
    &&& image.stroke == polygon.stroke
    &&& image.stroke_width == polygon.stroke_width
}

/// `images` holds, in order, the image of each polygon of `polygons`.
pub open spec fn are_polygon_images(
    polygons: Seq<Polygon>,
    images: Seq<Polygon>,
    scale_x: Ratio,
    scale_y: Ratio,
    translate_x: int,
    translate_y: int,
) -> bool {
    &&& images.len() == polygons.len()
    &&& forall|i: int|
        0 <= i < polygons.len() ==> is_polygon_image(
            #[trigger] polygons[i],
            images[i],
            scale_x,
            scale_y,
            translate_x,
            translate_y,
        )
}

fn transform_points(
    points: &Vec<Point>,
    scale_x: Ratio,
    scale_y: Ratio,
    translate_x: i128,
    translate_y: i128,
) -> (r: Option<Vec<Point>>)
    requires
        -0x8000_0000_0000_0000 <= translate_x <= 0x8000_0000_0000_0000,
        -0x8000_0000_0000_0000 <= translate_y <= 0x8000_0000_0000_0000,
    ensures
        r is Some <==> all_transformable(
            points@,
            scale_x,
            scale_y,
            translate_x as int,
            translate_y as int,
        ),
        r matches Some(images) ==> images@ == transformed_points(
            points@,
            scale_x,
            scale_y,
            translate_x as int,
            translate_y as int,
        ),
{
    let mut images: Vec<Point> = Vec::new();
    let mut i: usize = 0;
    while i < points.len()
        invariant
            i <= points.len(),
            images@.len() == i,
            -0x8000_0000_0000_0000 <= translate_x <= 0x8000_0000_0000_0000,
            -0x8000_0000_0000_0000 <= translate_y <= 0x8000_0000_0000_0000,
            forall|k: int|
                0 <= k < i ==> transformed_point(
                    #[trigger] points@[k],
                    scale_x,
                    scale_y,
                    translate_x as int,
                    translate_y as int,
                ) == Some(images@[k]),
        decreases points.len() - i,
    {
        match transform_point_wide(&points[i], scale_x, scale_y, translate_x, translate_y) {
            Some(image) => {
                images.push(image);
            },
            None => {
                return None;
            },
        }
        i += 1;
    }
    proof {
        assert(images@ =~= transformed_points(
            points@,
            scale_x,
            scale_y,
            translate_x as int,
            translate_y as int,
        ));
    }
    Some(images)
}

/// Scales and moves every corner of every polygon, and keeps the paint.
///
/// Gives nothing where some corner has no image: a factor without a positive
/// denominator, or an image outside the coordinate space.
pub fn transform_polygons(
    polygons: &[Polygon],
    scale_x: Ratio,
    scale_y: Ratio,
    translate_x: i64,
    translate_y: i64,
) -> (r: Option<Vec<Polygon>>)
    ensures
        r is Some <==> polygons_transformable(
            polygons@,
            scale_x,
            scale_y,
            translate_x as int,
            translate_y as int,
        ),
        r matches Some(images) ==> are_polygon_images(
            polygons@,
            images@,
            scale_x,
            scale_y,
            translate_x as int,
            translate_y as int,
        ),
{
    transform_polygons_wide(polygons, scale_x, scale_y, translate_x as i128, translate_y as i128)
}

fn transform_polygons_wide(
    polygons: &[Polygon],
    scale_x: Ratio,
    scale_y: Ratio,
    translate_x: i128,
    translate_y: i128,
) -> (r: Option<Vec<Polygon>>)
    requires
        -0x8000_0000_0000_0000 <= translate_x <= 0x8000_0000_0000_0000,
        -0x8000_0000_0000_0000 <= translate_y <= 0x8000_0000_0000_0000,
    ensures
        r is Some <==> polygons_transformable(
            polygons@,
            scale_x,
            scale_y,
            translate_x as int,
            translate_y as int,
        ),
        r matches Some(images) ==> are_polygon_images(
            polygons@,
            images@,
            scale_x,
            scale_y,
            translate_x as int,
            translate_y as int,
        ),
{
    let mut images: Vec<Polygon> = Vec::new();
    let mut i: usize = 0;
    while i < polygons.len()
        invariant
            i <= polygons.len(),
            images@.len() == i,
            -0x8000_0000_0000_0000 <= translate_x <= 0x8000_0000_0000_0000,
            -0x8000_0000_0000_0000 <= translate_y <= 0x8000_0000_0000_0000,
            forall|k: int|
                0 <= k < i ==> all_transformable(
                    decode_points((#[trigger] polygons@[k]).points@),
                    scale_x,
                    scale_y,
                    translate_x as int,
                    translate_y as int,
                ),
            forall|k: int|
                0 <= k < i ==> is_polygon_image(
                    #[trigger] polygons@[k],
                    images@[k],
                    scale_x,
                    scale_y,
                    translate_x as int,
                    translate_y as int,
                ),
        decreases polygons.len() - i,
    {
        let polygon = &polygons[i];
        let points = parse_points(polygon.points.as_str());
        match transform_points(&points, scale_x, scale_y, translate_x, translate_y) {
            Some(moved) => {
                let text = stringify_points(moved.as_slice());
                images.push(polygon.with_points(text));
            },
            None => {
                return None;
            },
        }
        i += 1;
    }
    Some(images)
}

/// All corners of a shape list: the corners of each polygon, in the order of
/// the list.
pub open spec fn all_points(polygons: Seq<Polygon>) -> Seq<Point>
    decreases polygons.len(),
{
    if polygons.len() == 0 {
        Seq::<Point>::empty()
    } else {
        all_points(polygons.drop_last()) + decode_points(polygons.last().points@)
    }
}

/// `bbox` is the smallest axis-aligned rectangle around the points: every
/// point lies between its edges, and each edge passes through a point.
pub open spec fn is_bounding_box(bbox: BoundingBox, points: Seq<Point>) -> bool {
    &&& forall|i: int|
        0 <= i < points.len() ==> {
            &&& bbox.x <= (#[trigger] points[i]).x <= bbox.x + bbox.width
            &&& bbox.y <= points[i].y <= bbox.y + bbox.height
        }
    &&& exists|i: int| 0 <= i < points.len() && (#[trigger] points[i]).x == bbox.x
    &&& exists|i: int| 0 <= i < points.len() && (#[trigger] points[i]).x == bbox.x + bbox.width
    &&& exists|i: int| 0 <= i < points.len() && (#[trigger] points[i]).y == bbox.y
    &&& exists|i: int| 0 <= i < points.len() && (#[trigger] points[i]).y == bbox.y + bbox.height
}

/// The bounding box of a point list, where it has one.
pub open spec fn is_bounding_box_result(r: Option<BoundingBox>, points: Seq<Point>) -> bool {
    match r {
        Some(bbox) => points.len() > 0 && is_bounding_box(bbox, points),
        None => points.len() == 0,
    }
}

/// The smallest rectangle around a list of points of the coordinate space;
/// nothing for the empty list.
pub fn bounding_box_of_points(points: &[Point]) -> (r: Option<BoundingBox>)
    requires
        all_in_range(points@),
    ensures
        is_bounding_box_result(r, points@),
        r matches Some(bbox) ==> bbox.wf() && -COORD_MAX <= bbox.x && -COORD_MAX <= bbox.y
            && bbox.x + bbox.width <= COORD_MAX && bbox.y + bbox.height <= COORD_MAX,
{
    if points.len() == 0 {
        return None;
    }
    let mut min_x: i64 = points[0].x;
    let mut max_x: i64 = points[0].x;
    let mut min_y: i64 = points[0].y;
    let mut max_y: i64 = points[0].y;
    let ghost mut at_min_x: int = 0;
    let ghost mut at_max_x: int = 0;
    let ghost mut at_min_y: int = 0;
    let ghost mut at_max_y: int = 0;
    let mut i: usize = 1;
    while i < points.len()
        invariant
            1 <= i <= points.len(),
            all_in_range(points@),
            forall|k: int|
                0 <= k < i ==> {
                    &&& min_x <= (#[trigger] points@[k]).x <= max_x
                    &&& min_y <= points@[k].y <= max_y
                },
            0 <= at_min_x < i && points@[at_min_x].x == min_x,
            0 <= at_max_x < i && points@[at_max_x].x == max_x,
            0 <= at_min_y < i && points@[at_min_y].y == min_y,
            0 <= at_max_y < i && points@[at_max_y].y == max_y,
        decreases points.len() - i,
    {
        let p = points[i];
        if p.x < min_x {
            min_x = p.x;
            proof {
                at_min_x = i as int;
            }
        }
        if p.x > max_x {
            max_x = p.x;
            proof {
                at_max_x = i as int;
            }
        }
        if p.y < min_y {
            min_y = p.y;
            proof {
                at_min_y = i as int;
            }
        }
        if p.y > max_y {
            max_y = p.y;
            proof {
                at_max_y = i as int;
            }
        }
        i += 1;
    }
    proof {
        assert(points@[at_min_x].in_range());
        assert(points@[at_max_x].in_range());
        assert(points@[at_min_y].in_range());
        assert(points@[at_max_y].in_range());
    }
    Some(BoundingBox::new(min_x, min_y, max_x - min_x, max_y - min_y))
}

fn collect_points(polygons: &[Polygon]) -> (points: Vec<Point>)
    ensures
        points@ == all_points(polygons@),
        all_in_range(points@),
{
    let mut points: Vec<Point> = Vec::new();
    let mut i: usize = 0;
    while i < polygons.len()
        invariant
            i <= polygons.len(),
            points@ == all_points(polygons@.take(i as int)),
            all_in_range(points@),
        decreases polygons.len() - i,
    {
        let mut corners = parse_points(polygons[i].points.as_str());
        proof {
            let next = polygons@.take(i + 1);
            assert(next.drop_last() =~= polygons@.take(i as int));
            assert(next.last() == polygons@[i as int]);
        }
        points.append(&mut corners);
        i += 1;
    }
    proof {
        assert(polygons@.take(i as int) =~= polygons@);
    }
    points
}

/// The smallest rectangle around all corners of a shape list; nothing where
/// the list has no corner.
pub fn calculate_bounding_box(polygon_list: &[Polygon]) -> (r: Option<BoundingBox>)
    ensures
        is_bounding_box_result(r, all_points(polygon_list@)),
        r matches Some(bbox) ==> bbox.wf() && -COORD_MAX <= bbox.x && -COORD_MAX <= bbox.y
            && bbox.x + bbox.width <= COORD_MAX && bbox.y + bbox.height <= COORD_MAX,
{
    let points = collect_points(polygon_list);
    bounding_box_of_points(points.as_slice())
}

/// Moves every corner so that the corner of `bbox` becomes the origin: the
/// transform with both factors one and the translation `(-bbox.x, -bbox.y)`.
///
/// Gives nothing where a moved corner leaves the coordinate space.
pub fn convert_to_local_coordinates(polygons: &[Polygon], bbox: &BoundingBox) -> (r: Option<
    Vec<Polygon>,
>)
    ensures
        r is Some <==> polygons_transformable(
            polygons@,
            Ratio { num: 1, den: 1 },
            Ratio { num: 1, den: 1 },
            -bbox.x,
            -bbox.y,
        ),
        r matches Some(images) ==> are_polygon_images(
            polygons@,
            images@,
            Ratio { num: 1, den: 1 },
            Ratio { num: 1, den: 1 },
            -bbox.x,
            -bbox.y,
        ),
{
    transform_polygons_wide(
        polygons,
        Ratio::identity(),
        Ratio::identity(),
        -(bbox.x as i128),
        -(bbox.y as i128),
    )
}

/// The canvas position of a pointer at `client`, for a canvas element that
/// covers the rectangle `rect` of the window: the offset into the rectangle,
/// scaled from the rectangle's size to the canvas size.
pub open spec fn client_to_svg(client: Point, rect: BoundingBox) -> Option<Point> {
    let x = round_div((client.x - rect.x) * SVG_SIZE, rect.width as int);
    let y = round_div((client.y - rect.y) * SVG_SIZE, rect.height as int);
    if rect.width > 0 && rect.height > 0 && -COORD_MAX <= x <= COORD_MAX && -COORD_MAX <= y
        <= COORD_MAX {
        Some(Point { x: x as i64, y: y as i64 })
    } else {
        None
    }
}

fn client_to_svg_coord(client: i64, origin: i64, extent: i64) -> (r: Option<i64>)
    requires
        extent > 0,
    ensures
        r == if -COORD_MAX <= round_div((client - origin) * SVG_SIZE, extent as int) <= COORD_MAX {
            Some(round_div((client - origin) * SVG_SIZE, extent as int) as i64)
        } else {
            None
        },
{
    let offset: i128 = client as i128 - origin as i128;
    assert(-WIDE_MAX <= offset * SVG_SIZE <= WIDE_MAX) by (nonlinear_arith)
        requires
            -0x1_0000_0000_0000_0000 <= offset <= 0x1_0000_0000_0000_0000,
            SVG_SIZE == 50_000,
            WIDE_MAX == 0x4000_0000_0000_0000_0000_0000_0000_0000,
    ;
    let q = round_div_wide(offset * (SVG_SIZE as i128), extent);
    if -(COORD_MAX as i128) <= q && q <= COORD_MAX as i128 {
        Some(q as i64)
    } else {
        None
    }
}

/// Maps a pointer position in window coordinates to canvas coordinates.
///
/// Gives nothing where the rectangle of the canvas element has no positive
/// width and height, or the position falls outside the coordinate space.
pub fn client_to_svg_coords(client: &Point, rect: &BoundingBox) -> (r: Option<Point>)
    ensures
        r == client_to_svg(*client, *rect),
{
    if rect.width <= 0 || rect.height <= 0 {
        return None;
    }
    match client_to_svg_coord(client.x, rect.x, rect.width) {
        Some(x) => match client_to_svg_coord(client.y, rect.y, rect.height) {
            Some(y) => Some(Point::new(x, y)),
            None => None,
        },
        None => None,
    }
}

/// Every corner of a shape list lies inside the coordinate space.
pub proof fn lemma_all_points_in_range(polygons: Seq<Polygon>)
    ensures
        all_in_range(all_points(polygons)),
    decreases polygons.len(),
{
    if polygons.len() > 0 {
        let init = all_points(polygons.drop_last());
        let corners = decode_points(polygons.last().points@);
        lemma_all_points_in_range(polygons.drop_last());
        lemma_decoded_in_range(polygons.last().points@);
        assert forall|k: int| 0 <= k < all_points(polygons).len() implies (
        #[trigger] all_points(polygons)[k]).in_range() by {
            if k < init.len() {
                assert(all_points(polygons)[k] == init[k]);
            } else {
                assert(all_points(polygons)[k] == corners[k - init.len()]);
            }
        }
    }
}

/// The corners of a shape list all have an image exactly where the corners
/// of each of its polygons have.
pub proof fn lemma_transformable_all_points(
    polygons: Seq<Polygon>,
    scale_x: Ratio,
    scale_y: Ratio,
    translate_x: int,
    translate_y: int,
)
    ensures
        polygons_transformable(polygons, scale_x, scale_y, translate_x, translate_y)
            <==> all_transformable(
            all_points(polygons),
            scale_x,
            scale_y,
            translate_x,
            translate_y,
        ),
    decreases polygons.len(),
{
    if polygons.len() > 0 {
        let init = polygons.drop_last();
        let corners = decode_points(polygons.last().points@);
        let pooled = all_points(polygons);
        lemma_transformable_all_points(init, scale_x, scale_y, translate_x, translate_y);
        if polygons_transformable(polygons, scale_x, scale_y, translate_x, translate_y) {
            assert(polygons_transformable(init, scale_x, scale_y, translate_x, translate_y)) by {
                assert forall|i: int| 0 <= i < init.len() implies all_transformable(
                    decode_points((#[trigger] init[i]).points@),
                    scale_x,
                    scale_y,
                    translate_x,
                    translate_y,
                ) by {
                    assert(init[i] == polygons[i]);
                }
            }
            assert(all_transformable(corners, scale_x, scale_y, translate_x, translate_y)) by {
                assert(polygons[polygons.len() - 1] == polygons.last());
            }
            assert forall|k: int| 0 <= k < pooled.len() implies transformed_point(
                #[trigger] pooled[k],
                scale_x,
                scale_y,
                translate_x,
                translate_y,
            ) is Some by {
                if k < all_points(init).len() {
                    assert(pooled[k] == all_points(init)[k]);
                } else {
                    assert(pooled[k] == corners[k - all_points(init).len()]);
                }
            }
        }
        if all_transformable(pooled, scale_x, scale_y, translate_x, translate_y) {
            assert forall|k: int| 0 <= k < all_points(init).len() implies transformed_point(
                #[trigger] all_points(init)[k],
                scale_x,
                scale_y,
                translate_x,
                translate_y,
            ) is Some by {
                assert(pooled[k] == all_points(init)[k]);
            }
            assert forall|k: int| 0 <= k < corners.len() implies transformed_point(
                #[trigger] corners[k],
                scale_x,
                scale_y,
                translate_x,
                translate_y,
            ) is Some by {
                assert(pooled[all_points(init).len() + k] == corners[k]);
            }
            assert forall|i: int| 0 <= i < polygons.len() implies all_transformable(
                decode_points((#[trigger] polygons[i]).points@),
                scale_x,
                scale_y,
                translate_x,
                translate_y,
            ) by {
                if i < init.len() {
                    assert(init[i] == polygons[i]);
                }
            }
        }
    }
}

/// The corners of the images of a shape list are the images of its corners.
pub proof fn lemma_all_points_of_images(
    polygons: Seq<Polygon>,
    images: Seq<Polygon>,
    scale_x: Ratio,
    scale_y: Ratio,
    translate_x: int,
    translate_y: int,
)
    requires
        polygons_transformable(polygons, scale_x, scale_y, translate_x, translate_y),
        are_polygon_images(polygons, images, scale_x, scale_y, translate_x, translate_y),
    ensures
        all_points(images) == transformed_points(
            all_points(polygons),
            scale_x,
            scale_y,
            translate_x,
            translate_y,
        ),
    decreases polygons.len(),
{
    if polygons.len() == 0 {
        assert(all_points(images) =~= transformed_points(
            all_points(polygons),
            scale_x,
            scale_y,
            translate_x,
            translate_y,
        ));
    } else {
        let init = polygons.drop_last();
        let init_images = images.drop_last();
        assert(polygons_transformable(init, scale_x, scale_y, translate_x, translate_y)) by {
            assert forall|i: int| 0 <= i < init.len() implies all_transformable(
                decode_points((#[trigger] init[i]).points@),
                scale_x,
                scale_y,
                translate_x,
                translate_y,
            ) by {
                assert(init[i] == polygons[i]);
            }
        }
        assert(are_polygon_images(init, init_images, scale_x, scale_y, translate_x, translate_y))
            by {
            assert forall|i: int| 0 <= i < init.len() implies is_polygon_image(
                #[trigger] init[i],
                init_images[i],
                scale_x,
                scale_y,
                translate_x,
                translate_y,
            ) by {
                assert(init[i] == polygons[i]);
                assert(init_images[i] == images[i]);
            }
        }
        lemma_all_points_of_images(init, init_images, scale_x, scale_y, translate_x, translate_y);
        let last = polygons.len() - 1;
        let corners = decode_points(polygons.last().points@);
        let moved = transformed_points(corners, scale_x, scale_y, translate_x, translate_y);
        assert(polygons[last] == polygons.last());
        assert(is_polygon_image(
            polygons[last],
            images[last],
            scale_x,
            scale_y,
            translate_x,
            translate_y,
        ));
        assert(all_transformable(corners, scale_x, scale_y, translate_x, translate_y));
        assert(all_in_range(moved)) by {
            assert forall|k: int| 0 <= k < moved.len() implies (#[trigger] moved[k]).in_range() by {
                assert(transformed_point(corners[k], scale_x, scale_y, translate_x, translate_y)
                    is Some);
            }
        }
        lemma_decode_encode(moved);
        assert(decode_points(images.last().points@) == moved);
        assert(all_points(images) =~= transformed_points(
            all_points(polygons),
            scale_x,
            scale_y,
            translate_x,
            translate_y,
        ));
    }
}

/// Scaling by a factor whose numerator equals its denominator changes
/// nothing.
pub proof fn lemma_unit_scale(p: int, d: int)
    requires
        d > 0,
    ensures
        round_div(p * d, d) == p,
{
    if p >= 0 {
        assert(p * d >= 0) by (nonlinear_arith)
            requires
                p >= 0,
                d > 0,
        ;
        assert(2 * (p * d) + d == (2 * d) * p + d) by (nonlinear_arith);
        lemma_div_multiples_vanish_fancy(p, d, 2 * d);
    } else {
        assert(p * d < 0) by (nonlinear_arith)
            requires
                p < 0,
                d > 0,
        ;
        assert(2 * (-(p * d)) + d == (2 * d) * (-p) + d) by (nonlinear_arith);
        lemma_div_multiples_vanish_fancy(-p, d, 2 * d);
    }
}

/// Rounding keeps the order of the numerators.
pub proof fn lemma_round_div_monotone(a: int, b: int, d: int)
    requires
        d > 0,
        a <= b,
    ensures
        round_div(a, d) <= round_div(b, d),
{
    if a >= 0 {
        lemma_div_is_ordered(2 * a + d, 2 * b + d, 2 * d);
    } else if b < 0 {
        lemma_div_is_ordered(2 * (-b) + d, 2 * (-a) + d, 2 * d);
    } else {
        lemma_div_pos_is_pos(2 * (-a) + d, 2 * d);
        lemma_div_pos_is_pos(2 * b + d, 2 * d);
    }
}

/// A coordinate between zero and `base`, scaled by `size / base`, lies
/// between zero and `size`; zero stays zero and `base` becomes `size`.
pub proof fn lemma_scaled_extent(p: int, size: int, base: int)
    requires
        base > 0,
        0 <= p <= base,
    ensures
        size >= 0 ==> 0 <= round_div(p * size, base) <= size,
        size < 0 ==> size <= round_div(p * size, base) <= 0,
        p == 0 ==> round_div(p * size, base) == 0,
        p == base ==> round_div(p * size, base) == size,
{
    lemma_unit_scale(size, base);
    lemma_basic_div(base, 2 * base);
    assert(round_div(0, base) == 0);
    assert(base * size == size * base) by (nonlinear_arith);
    if size >= 0 {
        assert(0 <= p * size <= base * size) by (nonlinear_arith)
            requires
                0 <= p <= base,
                size >= 0,
        ;
        lemma_round_div_monotone(0, p * size, base);
        lemma_round_div_monotone(p * size, base * size, base);
    } else {
        assert(base * size <= p * size <= 0) by (nonlinear_arith)
            requires
                0 <= p <= base,
                size < 0,
        ;
        lemma_round_div_monotone(base * size, p * size, base);
        lemma_round_div_monotone(p * size, 0, base);
    }
    if p == 0 {
        assert(p * size == 0);
    }
}

/// A point list has at most one bounding box.
pub proof fn lemma_bounding_box_unique(a: BoundingBox, b: BoundingBox, points: Seq<Point>)
    requires
        is_bounding_box(a, points),
        is_bounding_box(b, points),
    ensures
        a == b,
{
    let a_min_x = choose|i: int| 0 <= i < points.len() && (#[trigger] points[i]).x == a.x;
    let b_min_x = choose|i: int| 0 <= i < points.len() && (#[trigger] points[i]).x == b.x;
    let a_max_x = choose|i: int|
        0 <= i < points.len() && (#[trigger] points[i]).x == a.x + a.width;
    let b_max_x = choose|i: int|
        0 <= i < points.len() && (#[trigger] points[i]).x == b.x + b.width;
    let a_min_y = choose|i: int| 0 <= i < points.len() && (#[trigger] points[i]).y == a.y;
    let b_min_y = choose|i: int| 0 <= i < points.len() && (#[trigger] points[i]).y == b.y;
    let a_max_y = choose|i: int|
        0 <= i < points.len() && (#[trigger] points[i]).y == a.y + a.height;
    let b_max_y = choose|i: int|
        0 <= i < points.len() && (#[trigger] points[i]).y == b.y + b.height;
    assert(a.x == b.x);
    assert(a.y == b.y);
    assert(a.x + a.width == b.x + b.width);
    assert(a.y + a.height == b.y + b.height);
}

/// The bounding box of a single point is the empty rectangle at that point.
pub proof fn lemma_single_point_box(p: Point, bbox: BoundingBox)
    requires
        is_bounding_box(bbox, seq![p]),
    ensures
        bbox == (BoundingBox { x: p.x, y: p.y, width: 0, height: 0 }),
{
    let points = seq![p];
    assert(points[0] == p);
    let at_min_x = choose|i: int| 0 <= i < points.len() && (#[trigger] points[i]).x == bbox.x;
    let at_max_x = choose|i: int|
        0 <= i < points.len() && (#[trigger] points[i]).x == bbox.x + bbox.width;
    let at_min_y = choose|i: int| 0 <= i < points.len() && (#[trigger] points[i]).y == bbox.y;
    let at_max_y = choose|i: int|
        0 <= i < points.len() && (#[trigger] points[i]).y == bbox.y + bbox.height;
}

/// A rounded quotient differs from the exact one by at most a half.
pub proof fn lemma_round_div_nearest(n: int, d: int)
    requires
        d > 0,
    ensures
        -d <= 2 * (d * round_div(n, d) - n) <= d,
{
    let m = if n >= 0 {
        n
    } else {
        -n
    };
    let q = (2 * m + d) / (2 * d);
    lemma_fundamental_div_mod(2 * m + d, 2 * d);
    lemma_mod_bound(2 * m + d, 2 * d);
    assert(2 * m + d == (2 * d) * q + (2 * m + d) % (2 * d));
    assert((2 * d) * q == 2 * (d * q)) by (nonlinear_arith);
    if n < 0 {
        assert(d * (-q) == -(d * q)) by (nonlinear_arith);
    }
}

} // verus!

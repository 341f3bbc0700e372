use vstd::prelude::*;
use vstd::arithmetic::div_mod::{lemma_div_multiples_vanish, lemma_fundamental_div_mod};
use crate::boundingbox::BoundingBox;
use crate::interpolation::{
    average_color,
    barycentric_weights,
    channel_of,
    channel_sum,
    lemma_weight_bounds,
    weight_denominator,
    interpolate_rgba_in_triangle,
    interpolate_triangle_average_color,
    weighted_color,
};
use crate::mesh::Mesh;
use crate::point::{Point, Rgba, UNITS_PER_PIXEL};
use crate::raster::{lemma_index_names_pixel, lemma_pixel_index_in_bounds, pixel_index, Raster};
use crate::topology::{inside, is_point_in_triangle};

verus! {

/// How the pixels of a triangle get their colour.
#[derive(Clone, Copy, Debug, PartialEq, Eq, Structural)]
pub enum Fill {
    /// Every pixel takes the mean of the three vertex colours.
    Flat,
    /// Every pixel blends the vertex colours by its barycentric weights.
    Weighted,
}

/// The pixel row (or column) that holds a coordinate: the coordinate in
/// whole pixels, rounded down.
pub open spec fn floor_pixel(v: int) -> int {
    v / (UNITS_PER_PIXEL as int)
}

/// The coordinate in whole pixels, rounded up.
pub open spec fn ceil_pixel(v: int) -> int {
    (v + UNITS_PER_PIXEL - 1) / (UNITS_PER_PIXEL as int)
}

/// The position at which pixel `(col, row)` is tested against a triangle.
pub open spec fn probe(col: int, row: int) -> Point {
    Point::pixel_corner(col, row, Rgba::white())
}

/// Whether a triangle paints pixel `(col, row)`: the pixel lies in the
/// triangle's bounding box, from the rounded-down lower edge up to but
/// without the rounded-up upper edge, and passes the point-in-triangle
/// test.
pub open spec fn covers(t: [Point; 3], col: int, row: int) -> bool {
    let bbox = BoundingBox::of(t);
    &&& floor_pixel(bbox.xmin as int) <= col < ceil_pixel(bbox.xmax as int)
    &&& floor_pixel(bbox.ymin as int) <= row < ceil_pixel(bbox.ymax as int)
    &&& inside(probe(col, row), t)
}

/// The colour that a triangle gives to pixel `(col, row)`.
pub open spec fn fill_color(fill: Fill, t: [Point; 3], col: int, row: int) -> Rgba {
    match fill {
        Fill::Flat => average_color(t),
        Fill::Weighted => weighted_color(probe(col, row), t),
    }
}

/// The colour of pixel `(col, row)` after the triangles were painted in
/// order: that of the last triangle that covers it, or transparent black
/// where none does.
pub open spec fn painted(triangles: Seq<[Point; 3]>, fill: Fill, col: int, row: int) -> Rgba
    decreases triangles.len(),
{
    if triangles.len() == 0 {
        Rgba::clear()
    } else if covers(triangles.last(), col, row) {
        fill_color(fill, triangles.last(), col, row)
    } else {
        painted(triangles.drop_last(), fill, col, row)
    }
}

/// The pixels of a `width` by `height` image of the triangles, row by row.
pub open spec fn rendering(triangles: Seq<[Point; 3]>, fill: Fill, width: int, height: int) -> Seq<
    Rgba,
> {
    Seq::new((width * height) as nat, |i: int| painted(triangles, fill, i % width, i / width))
}

/// The image while one triangle is being painted over `under`: the pixels
/// before `(col, row)`, in reading order, have been visited.
spec fn half_painted(
    under: Seq<Rgba>,
    t: [Point; 3],
    fill: Fill,
    width: int,
    row: int,
    col: int,
) -> Seq<Rgba> {
    Seq::new(
        under.len(),
        |i: int|
            if (i / width < row || (i / width == row && i % width < col)) && covers(
                t,
                i % width,
                i / width,
            ) {
                fill_color(fill, t, i % width, i / width)
            } else {
                under[i]
            },
    )
}

/// A pixel row (or column) number, held inside an image of `size` rows.
spec fn held(v: int, size: int) -> int {
    if v <= 0 {
        0
    } else if v >= size {
        size
    } else {
        v
    }
}

/// First pixel row (or column) that a box with the lower edge `lo` reaches
/// in an image of `size` rows.
spec fn first_pixel_of(lo: int, size: int) -> int {
    held(floor_pixel(lo), size)
}

/// The pixel row (or column) at which a box with the upper edge `hi` ends
/// in an image of `size` rows.
spec fn end_pixel_of(hi: int, size: int) -> int {
    held(ceil_pixel(hi), size)
}

/// First pixel row (or column) of a box inside an image of `size` rows.
fn first_pixel(lo: i32, size: u32) -> (first: u32)
    ensures
        first <= size,
        first == first_pixel_of(lo as int, size as int),
{
    if lo <= 0 {
        0
    } else {
        let whole: u32 = (lo / UNITS_PER_PIXEL) as u32;
        if whole >= size {
            size
        } else {
            whole
        }
    }
}

/// The pixel row (or column) after the last one of a box inside an image
/// of `size` rows.
fn end_pixel(hi: i32, size: u32) -> (end: u32)
    ensures
        end <= size,
        end == end_pixel_of(hi as int, size as int),
        end * UNITS_PER_PIXEL < hi + UNITS_PER_PIXEL || end == 0,
{
    if hi <= 0 {
        0
    } else {
        let whole: u32 = ((hi - 1) / UNITS_PER_PIXEL) as u32 + 1;
        if whole >= size {
            size
        } else {
            whole
        }
    }
}

/// Paints the triangles, in order, into a fresh `width` by `height` image.
/// A pixel that several triangles cover keeps the colour of the last one;
/// a pixel that none covers stays transparent black.
pub fn rasterize_triangles(triangles: &Vec<[Point; 3]>, width: u32, height: u32, fill: Fill) -> (img:
    Raster)
    requires
        width * height <= usize::MAX,
    ensures
        img.spec_width() == width,
        img.spec_height() == height,
        img@ == rendering(triangles@, fill, width as int, height as int),
{
    let mut img = Raster::new(width, height);
    let ghost w = width as int;
    let ghost h = height as int;
    assert(img@ =~= rendering(triangles@.take(0), fill, w, h));
    let mut k: usize = 0;
    while k < triangles.len()
        invariant
            k <= triangles@.len(),
            w == width,
            h == height,
            img.spec_width() == width,
            img.spec_height() == height,
            img@ == rendering(triangles@.take(k as int), fill, w, h),
        decreases triangles@.len() - k,
    {
        let triangle = &triangles[k];
        let ghost t = *triangle;
        let ghost under = img@;
        let bbox = BoundingBox::from_triangle(triangle);
        let row_lo: u32 = first_pixel(bbox.ymin, height);
        let row_hi: u32 = end_pixel(bbox.ymax, height);
        let col_lo: u32 = first_pixel(bbox.xmin, width);
        let col_hi: u32 = end_pixel(bbox.xmax, width);
        let mut row: u32 = row_lo;
        assert(img@ =~= half_painted(under, t, fill, w, row as int, 0)) by {
            assert forall|i: int| 0 <= i < under.len() implies under[i] == half_painted(
                under,
                t,
                fill,
                w,
                row as int,
                0,
            )[i] by {
                if i / w < row {
                    assert(!covers(t, i % w, i / w));
                }
            }
        }
        while row < row_hi
            invariant
                w == width,
                h == height,
                t == *triangle,
                bbox == BoundingBox::of(t),
                row_lo <= row,
                row_hi <= height,
                col_hi <= width,
                row_hi > row_lo ==> row <= row_hi,
                row_lo == first_pixel_of(bbox.ymin as int, h),
                row_hi == end_pixel_of(bbox.ymax as int, h),
                col_lo == first_pixel_of(bbox.xmin as int, w),
                col_hi == end_pixel_of(bbox.xmax as int, w),
                col_hi * UNITS_PER_PIXEL < bbox.xmax + UNITS_PER_PIXEL || col_hi == 0,
                row_hi * UNITS_PER_PIXEL < bbox.ymax + UNITS_PER_PIXEL || row_hi == 0,
                img.spec_width() == width,
                img.spec_height() == height,
                under.len() == w * h,
                img@ == half_painted(under, t, fill, w, row as int, 0),
            decreases row_hi - row,
        {
            let mut col: u32 = col_lo;
            assert(img@ =~= half_painted(under, t, fill, w, row as int, col as int)) by {
                assert forall|i: int| 0 <= i < under.len() implies half_painted(
                    under,
                    t,
                    fill,
                    w,
                    row as int,
                    0,
                )[i] == half_painted(under, t, fill, w, row as int, col as int)[i] by {
                    if i / w == row && i % w < col {
                        assert(!covers(t, i % w, i / w));
                    }
                }
            }
            while col < col_hi
                invariant
                    w == width,
                    h == height,
                    t == *triangle,
                    bbox == BoundingBox::of(t),
                    row_lo <= row < row_hi,
                    row_hi <= height,
                    col_hi <= width,
                    col_lo <= col,
                    row_lo == first_pixel_of(bbox.ymin as int, h),
                    row_hi == end_pixel_of(bbox.ymax as int, h),
                    col_lo == first_pixel_of(bbox.xmin as int, w),
                    col_hi == end_pixel_of(bbox.xmax as int, w),
                    col_hi > col_lo ==> col <= col_hi,
                    col_hi * UNITS_PER_PIXEL < bbox.xmax + UNITS_PER_PIXEL || col_hi == 0,
                    row_hi * UNITS_PER_PIXEL < bbox.ymax + UNITS_PER_PIXEL || row_hi == 0,
                    img.spec_width() == width,
                    img.spec_height() == height,
                    under.len() == w * h,
                    img@ == half_painted(under, t, fill, w, row as int, col as int),
                decreases col_hi - col,
            {
                let point = Point::at_pixel(col, row, Rgba { r: 255, g: 255, b: 255, a: 255 });
                let ghost before = img@;
                let hit = is_point_in_triangle(&point, triangle);
                if hit {
                    let color = match fill {
                        Fill::Flat => interpolate_triangle_average_color(triangle),
                        Fill::Weighted => interpolate_rgba_in_triangle(&point, triangle),
                    };
                    img.put_pixel(col, row, color);
                }
                proof {
                    lemma_pixel_index_in_bounds(w, h, col as int, row as int);
                    let at = pixel_index(w, col as int, row as int);
                    assert forall|i: int| 0 <= i < under.len() implies img@[i] == half_painted(
                        under,
                        t,
                        fill,
                        w,
                        row as int,
                        col as int + 1,
                    )[i] by {
                        lemma_fundamental_div_mod(i, w);
                        if i == at {
                        } else {
                            assert(!(i / w == row && i % w == col)) by (nonlinear_arith)
                                requires
                                    i == w * (i / w) + (i % w),
                                    i != at,
                                    at == row * w + col,
                            ;
                            assert(img@[i] == before[i]);
                        }
                    }
                    assert(img@ =~= half_painted(under, t, fill, w, row as int, col as int + 1));
                }
                col += 1;
            }
            assert(img@ =~= half_painted(under, t, fill, w, row as int + 1, 0)) by {
                assert forall|i: int| 0 <= i < under.len() implies half_painted(
                    under,
                    t,
                    fill,
                    w,
                    row as int,
                    col as int,
                )[i] == half_painted(under, t, fill, w, row as int + 1, 0)[i] by {
                    if i / w == row && i % w >= col {
                        assert(!covers(t, i % w, i / w));
                    }
                }
            }
            row += 1;
        }
        proof {
            assert(triangles@.take(k as int + 1).drop_last() =~= triangles@.take(k as int));
            assert(triangles@.take(k as int + 1).last() == t);
            assert forall|i: int| 0 <= i < under.len() implies img@[i] == rendering(
                triangles@.take(k as int + 1),
                fill,
                w,
                h,
            )[i] by {
                lemma_index_names_pixel(w, h, i);
                if i / w >= row {
                    assert(!covers(t, i % w, i / w));
                }
            }
            assert(img@ =~= rendering(triangles@.take(k as int + 1), fill, w, h));
        }
        k += 1;
    }
    assert(triangles@.take(k as int) =~= triangles@);
    img
}

/// Paints the mesh into a `width` by `height` image, every triangle in
/// its flat colour.
pub fn rasterize_mesh(mesh: &Mesh, width: i32, height: i32) -> (img: Raster)
    requires
        mesh.wf(),
        0 <= width,
        0 <= height,
        width * height <= usize::MAX,
    ensures
        img.spec_width() == width,
        img.spec_height() == height,
        img@ == rendering(mesh.triangles_view(), Fill::Flat, width as int, height as int),
{
    let triangles = mesh.triangles();
    rasterize_triangles(&triangles, width as u32, height as u32, Fill::Flat)
}

/// Whether all corners of all triangles have the colour `color`.
pub open spec fn corners_colored(triangles: Seq<[Point; 3]>, color: Rgba) -> bool {
    forall|k: int|
        0 <= k < triangles.len() ==> {
            &&& (#[trigger] triangles[k])[0].c == color
            &&& triangles[k][1].c == color
            &&& triangles[k][2].c == color
        }
}

/// A blend of one value with itself is that value.
proof fn lemma_channel_of_one_value(p: Point, t: [Point; 3], c: u8)
    requires
        weight_denominator(t) != 0,
    ensures
        channel_of(channel_sum(barycentric_weights(p, t), c, c, c), weight_denominator(t)) == c,
{
    lemma_weight_bounds(p, t);
    let w = barycentric_weights(p, t);
    let den = weight_denominator(t);
    assert(w.w1 + w.w2 + w.w3 == den);
    assert(w.w1 * c + w.w2 * c + w.w3 * c == den * c && -(den * c) == (-den) * c)
        by (nonlinear_arith)
        requires
            w.w1 + w.w2 + w.w3 == den,
    ;
    if den > 0 {
        lemma_div_multiples_vanish(c as int, den);
        assert(den * c <= 0 ==> c == 0) by (nonlinear_arith)
            requires
                den > 0,
                c >= 0,
        ;
    } else {
        lemma_div_multiples_vanish(c as int, -den);
        assert((-den) * c <= 0 ==> c == 0) by (nonlinear_arith)
            requires
                den < 0,
                c >= 0,
        ;
    }
}

/// Triangles whose corners all have one colour paint every pixel that they
/// cover in that colour, made opaque, whichever way they are filled.
pub proof fn lemma_painted_in_one_color(
    triangles: Seq<[Point; 3]>,
    fill: Fill,
    color: Rgba,
    col: int,
    row: int,
)
    requires
        corners_colored(triangles, color),
    ensures
        painted(triangles, fill, col, row) == Rgba::clear() || painted(triangles, fill, col, row)
            == (Rgba { a: 255, ..color }),
    decreases triangles.len(),
{
    if triangles.len() > 0 {
        let t = triangles.last();
        assert(t == triangles[triangles.len() - 1]);
        if covers(t, col, row) {
            assert(average_color(t) == (Rgba { a: 255, ..color }));
            if weight_denominator(t) != 0 {
                lemma_weight_bounds(probe(col, row), t);
                lemma_channel_of_one_value(probe(col, row), t, color.r);
                lemma_channel_of_one_value(probe(col, row), t, color.g);
                lemma_channel_of_one_value(probe(col, row), t, color.b);
            }
        } else {
            let earlier = triangles.drop_last();
            assert(corners_colored(earlier, color)) by {
                assert forall|k: int| 0 <= k < earlier.len() implies {
                    &&& (#[trigger] earlier[k])[0].c == color
                    &&& earlier[k][1].c == color
                    &&& earlier[k][2].c == color
                } by {
                    assert(earlier[k] == triangles[k]);
                }
            }
            lemma_painted_in_one_color(earlier, fill, color, col, row);
        }
    }
}

} // verus!

//! Low-poly stylisation of raster images.
//!
//! A triangular mesh is laid over the image plane, refined where the mesh
//! colours stray from the image, and painted back into a pixel grid.
//! Positions are fixed-point integers: one pixel is
//! [`point::UNITS_PER_PIXEL`] units wide, so mesh vertices can sit between
//! pixel corners while all geometry stays exact.

use vstd::prelude::*;

pub mod boundingbox;
pub mod config;
pub mod interpolation;
pub mod mesh;
pub mod point;
pub mod raster;
pub mod rasterization;
pub mod refinement;
pub mod topology;

use crate::config::{check_counts, count_error, Config, Error};
use crate::mesh::{corners_among, Mesh};
use crate::point::{Point, Rgba, COORD_LIMIT, MAX_PIXEL, UNITS_PER_PIXEL};
use crate::raster::Raster;
use crate::rasterization::{
    corners_colored,
    lemma_painted_in_one_color,
    rasterize_triangles,
    rendering,
    Fill,
};
use crate::refinement::{
    all_samples,
    is_sample,
    lemma_sample_of_uniform,
    lemma_with_point_len,
    lemma_with_points_len,
    lemma_with_points_samples,
    refine_mesh,
    refined,
    triangles_of_samples,
    uniform,
    with_points,
};

verus! {

/// `rand::rngs::StdRng`, the generator that places the initial points.
#[verifier::external_type_specification]
#[verifier::external_body]
pub struct ExStdRng(rand::rngs::StdRng);

/// `SeedableRng::seed_from_u64` of rand, for `StdRng`. Nothing is claimed
/// of the generator that it returns.
#[verifier::external_body]
fn generator_from_seed(seed: u64) -> rand::rngs::StdRng {
    rand::SeedableRng::seed_from_u64(seed)
}

/// `Rng::gen_range` of rand on the range from zero up to but without
/// `bound`: some number of that range. The range must not be empty.
#[verifier::external_body]
fn random_below(rng: &mut rand::rngs::StdRng, bound: u32) -> (r: u32)
    requires
        bound > 0,
    ensures
        r < bound,
{
    rand::Rng::gen_range(rng, 0..bound)
}

/// The error that an image calls for, if any.
pub open spec fn image_error(img: Raster) -> Option<Error> {
    if img.spec_is_empty() {
        Some(Error::EmptyImage)
    } else if img.spec_width() > MAX_PIXEL || img.spec_height() > MAX_PIXEL {
        Some(Error::ImageTooLarge)
    } else {
        None
    }
}

/// The error that stops a conversion before it begins, if any: the
/// counts are checked first, then the image.
pub open spec fn input_error(img: Raster, n_initial_points: usize, n_iterations: i32) -> Option<
    Error,
> {
    match count_error(n_initial_points, n_iterations) {
        Some(e) => Some(e),
        None => image_error(img),
    }
}

/// The point at `(x, y)` with the colour that the image has there.
pub open spec fn sample_point(img: Raster, x: i32, y: i32) -> Point {
    Point { x, y, c: img.sample(x as int, y as int) }
}

/// The four corner pixels of an image as points: top left, top right,
/// bottom left, bottom right.
pub open spec fn image_corners(img: Raster) -> Seq<Point> {
    let right = ((img.spec_width() - 1) * UNITS_PER_PIXEL) as i32;
    let bottom = ((img.spec_height() - 1) * UNITS_PER_PIXEL) as i32;
    seq![
        sample_point(img, 0, 0),
        sample_point(img, right, 0),
        sample_point(img, 0, bottom),
        sample_point(img, right, bottom),
    ]
}

/// The points that a mesh starts from: the image's corners, then a sample
/// of the image at each of `positions`.
pub open spec fn seed_points(img: Raster, positions: Seq<(i32, i32)>) -> Seq<Point> {
    image_corners(img) + Seq::new(
        positions.len(),
        |i: int| sample_point(img, positions[i].0, positions[i].1),
    )
}

/// Whether a position lies within the coordinate limit.
pub open spec fn position_within_limit(position: (i32, i32)) -> bool {
    (Point { x: position.0, y: position.1, c: Rgba::white() }).within_limit()
}

/// Whether a position lies on the image.
pub open spec fn position_on_image(position: (i32, i32), img: Raster) -> bool {
    &&& 0 <= position.0 < img.spec_width() * UNITS_PER_PIXEL
    &&& 0 <= position.1 < img.spec_height() * UNITS_PER_PIXEL
}

/// How many random points a mesh of `n_points` initial points gets beside
/// the four corners.
pub open spec fn random_count(n_points: usize) -> int {
    if n_points >= 4 {
        n_points - 4
    } else {
        0
    }
}

/// Builds the mesh over the corners of the image and samples of the image
/// at the given positions. A position outside the image takes the colour
/// of the nearest pixel.
pub fn mesh_from_samples(img: &Raster, positions: &Vec<(i32, i32)>) -> (mesh: Mesh)
    requires
        image_error(*img).is_none(),
        forall|i: int| 0 <= i < positions@.len() ==> position_within_limit(#[trigger] positions@[i]),
    ensures
        mesh.wf(),
        mesh.points() == with_points(Seq::empty(), seed_points(*img, positions@)),
        1 <= mesh.points().len() <= 4 + positions@.len(),
        (forall|i: int| 0 <= i < positions@.len() ==> position_on_image(#[trigger] positions@[i], *img))
            ==> all_samples(mesh.points(), *img),
{
    let (width, height) = img.dimensions();
    let right: i32 = ((width - 1) as i32) * UNITS_PER_PIXEL;
    let bottom: i32 = ((height - 1) as i32) * UNITS_PER_PIXEL;
    let ghost seeds = seed_points(*img, positions@);
    let mut mesh = Mesh::new();
    mesh.insert(Point::new(0, 0, img.sample_at(0, 0)));
    mesh.insert(Point::new(right, 0, img.sample_at(right, 0)));
    mesh.insert(Point::new(0, bottom, img.sample_at(0, bottom)));
    mesh.insert(Point::new(right, bottom, img.sample_at(right, bottom)));
    proof {
        reveal_with_fuel(with_points, 5);
        assert(seeds.take(4) =~= image_corners(*img));
        assert(image_corners(*img).drop_last().drop_last().drop_last().drop_last() =~= Seq::<
            Point,
        >::empty());
        assert(mesh.points() == with_points(Seq::empty(), seeds.take(4)));
    }
    let mut i: usize = 0;
    while i < positions.len()
        invariant
            i <= positions@.len(),
            mesh.wf(),
            image_error(*img).is_none(),
            seeds == seed_points(*img, positions@),
            forall|i: int|
                0 <= i < positions@.len() ==> position_within_limit(#[trigger] positions@[i]),
            mesh.points() == with_points(Seq::empty(), seeds.take(4 + i)),
        decreases positions@.len() - i,
    {
        let (x, y) = positions[i];
        proof {
            assert(position_within_limit(positions@[i as int]));
            assert(seeds.take(4 + i + 1).drop_last() =~= seeds.take(4 + i));
            assert(seeds.take(4 + i + 1).last() == sample_point(*img, x, y));
        }
        mesh.insert(Point::new(x, y, img.sample_at(x, y)));
        i += 1;
    }
    proof {
        assert(seeds.take(4 + i) =~= seeds);
        lemma_with_points_len(Seq::empty(), seeds);
        lemma_with_point_len(with_points(Seq::empty(), seeds.drop_last()), seeds.last());
        if forall|i: int|
            0 <= i < positions@.len() ==> position_on_image(#[trigger] positions@[i], *img) {
            assert forall|k: int| 0 <= k < seeds.len() implies is_sample(#[trigger] seeds[k], *img) by {
                if k >= 4 {
                    assert(position_on_image(positions@[k - 4], *img));
                }
            }
            lemma_with_points_samples(Seq::empty(), seeds, *img);
        }
    }
    mesh
}

/// Checks what a conversion is handed before any work begins.
pub fn check_input(img: &Raster, n_initial_points: usize, n_iterations: i32) -> (r: Result<
    (),
    Error,
>)
    ensures
        r.is_ok() <==> input_error(*img, n_initial_points, n_iterations).is_none(),
        r matches Err(e) ==> Some(e) == input_error(*img, n_initial_points, n_iterations),
{
    match check_counts(n_initial_points, n_iterations) {
        Err(e) => Err(e),
        Ok(()) => {
            if img.is_empty() {
                Err(Error::EmptyImage)
            } else if img.width() > MAX_PIXEL || img.height() > MAX_PIXEL {
                Err(Error::ImageTooLarge)
            } else {
                Ok(())
            }
        },
    }
}

/// The width, in coordinate units, of a number of pixels.
fn units_across(pixels: u32) -> (units: u32)
    requires
        0 < pixels <= MAX_PIXEL,
    ensures
        units == pixels * UNITS_PER_PIXEL,
        0 < units <= COORD_LIMIT,
{
    assert(0 < pixels * 256 <= 0x2000_0000) by (nonlinear_arith)
        requires
            0 < pixels <= 0x20_0000,
    ;
    pixels * (UNITS_PER_PIXEL as u32)
}

/// Whether every one of `positions` lies on the image.
pub open spec fn all_on_image(positions: Seq<(i32, i32)>, img: Raster) -> bool {
    forall|i: int| 0 <= i < positions.len() ==> position_on_image(#[trigger] positions[i], img)
}

/// Whether `mesh` is an initial mesh of the image for `n_points` points:
/// the mesh of the image's corners and of samples at as many positions on
/// the image as `n_points` asks for, whichever positions they are.
pub open spec fn seeded(mesh: Mesh, img: Raster, n_points: usize) -> bool {
    &&& mesh.wf()
    &&& exists|positions: Seq<(i32, i32)>|
        {
            &&& positions.len() == random_count(n_points)
            &&& all_on_image(positions, img)
            &&& #[trigger] with_points(Seq::empty(), seed_points(img, positions)) == mesh.points()
        }
}

/// Whether `mesh` is what `n_iterations` refinement passes make of an
/// initial mesh of the image. It then still holds the points of that
/// initial mesh.
pub open spec fn built(
    mesh: Mesh,
    img: Raster,
    n_initial_points: usize,
    n_iterations: int,
    max_diff: int,
) -> bool {
    exists|start: Mesh|
        {
            &&& seeded(start, img, n_initial_points)
            &&& start.points().is_prefix_of(mesh.points())
            &&& #[trigger] refined(start, mesh, img, max_diff, n_iterations)
        }
}

/// Builds the initial mesh of an image: its four corners, and beside them
/// as many points at random positions on the image as it takes to make
/// `n_points` in all (none where `n_points` is four or less). Each point
/// has the colour of the pixel under it. The positions come from a
/// generator that is started from `seed`.
pub fn delaunay_of_random_image_pixels(img: &Raster, n_points: usize, seed: u64) -> (r: Result<
    Mesh,
    Error,
>)
    ensures
        r.is_ok() <==> input_error(*img, n_points, 0).is_none(),
        r matches Err(e) ==> Some(e) == input_error(*img, n_points, 0),
        r matches Ok(mesh) ==> {
            &&& seeded(mesh, *img, n_points)
            &&& mesh.wf()
            &&& all_samples(mesh.points(), *img)
            &&& 1 <= mesh.points().len() <= 4 + random_count(n_points)
        },
{
    match check_input(img, n_points, 0) {
        Err(e) => {
            return Err(e);
        },
        Ok(()) => {},
    }
    let (width, height) = img.dimensions();
    let count: usize = if n_points >= 4 {
        n_points - 4
    } else {
        0
    };
    let x_end: u32 = units_across(width);
    let y_end: u32 = units_across(height);
    let mut rng = generator_from_seed(seed);
    let mut positions: Vec<(i32, i32)> = Vec::new();
    let mut i: usize = 0;
    while i < count
        invariant
            i <= count,
            x_end == width * UNITS_PER_PIXEL,
            y_end == height * UNITS_PER_PIXEL,
            0 < x_end <= COORD_LIMIT,
            0 < y_end <= COORD_LIMIT,
            positions@.len() == i,
            width == img.spec_width(),
            height == img.spec_height(),
            0 < width <= MAX_PIXEL,
            0 < height <= MAX_PIXEL,
            forall|k: int|
                0 <= k < positions@.len() ==> position_on_image(#[trigger] positions@[k], *img)
                    && position_within_limit(positions@[k]),
        decreases count - i,
    {
        let rnd_x: u32 = random_below(&mut rng, x_end);
        let rnd_y: u32 = random_below(&mut rng, y_end);
        positions.push((rnd_x as i32, rnd_y as i32));
        i += 1;
    }
    let mesh = mesh_from_samples(img, &positions);
    proof {
        assert(all_on_image(positions@, *img));
        assert(with_points(Seq::empty(), seed_points(*img, positions@)) == mesh.points());
    }
    Ok(mesh)
}

/// Builds the initial mesh of an image and refines it `n_iterations`
/// times: the mesh that comes back is what that many passes make of the
/// initial mesh. It holds every point of the initial mesh, and it is the
/// initial mesh where no pass is asked for or the threshold is 255 or
/// more. Every point of it lies on the image and has the colour that the
/// image has there.
pub fn build_and_refine(
    img: &Raster,
    n_initial_points: usize,
    n_iterations: i32,
    max_diff: i32,
    seed: u64,
) -> (r: Result<Mesh, Error>)
    ensures
        r.is_ok() <==> input_error(*img, n_initial_points, n_iterations).is_none(),
        r matches Err(e) ==> Some(e) == input_error(*img, n_initial_points, n_iterations),
        r matches Ok(mesh) ==> {
            &&& mesh.wf()
            &&& built(mesh, *img, n_initial_points, n_iterations as int, max_diff as int)
            &&& n_iterations <= 0 || max_diff >= 255 ==> seeded(mesh, *img, n_initial_points)
            &&& all_samples(mesh.points(), *img)
            &&& mesh.points().len() >= 1
        },
{
    match check_input(img, n_initial_points, n_iterations) {
        Err(e) => {
            return Err(e);
        },
        Ok(()) => {},
    }
    match delaunay_of_random_image_pixels(img, n_initial_points, seed) {
        Err(e) => Err(e),
        Ok(mut mesh) => {
            let ghost start = mesh;
            refine_mesh(&mut mesh, img, n_iterations, max_diff);
            proof {
                assert(seeded(start, *img, n_initial_points));
                assert(refined(start, mesh, *img, max_diff as int, n_iterations as int));
                if n_iterations <= 0 || max_diff >= 255 {
                    let positions = choose|positions: Seq<(i32, i32)>|
                        {
                            &&& positions.len() == random_count(n_initial_points)
                            &&& all_on_image(positions, *img)
                            &&& #[trigger] with_points(Seq::empty(), seed_points(*img, positions))
                                == start.points()
                        };
                    assert(with_points(Seq::empty(), seed_points(*img, positions))
                        == mesh.points());
                }
            }
            Ok(mesh)
        },
    }
}

/// Converts an image: builds the initial mesh, refines it as the
/// configuration says, and paints the mesh into an image of the same
/// size, every triangle in its flat colour. The result is the rendering
/// of the triangles of a mesh that was built and refined so, and whose
/// points all are samples of the input image.
pub fn run(config: &Config, img: &Raster, seed: u64) -> (r: Result<Raster, Error>)
    ensures
        r.is_ok() <==> input_error(*img, config.n_initial_points, config.n_iterations).is_none(),
        r matches Err(e) ==> Some(e) == input_error(
            *img,
            config.n_initial_points,
            config.n_iterations,
        ),
        r matches Ok(out) ==> {
            &&& out.spec_width() == img.spec_width()
            &&& out.spec_height() == img.spec_height()
            &&& exists|mesh: Mesh|
                {
                    &&& mesh.wf()
                    &&& built(
                        mesh,
                        *img,
                        config.n_initial_points,
                        config.n_iterations as int,
                        config.max_diff as int,
                    )
                    &&& all_samples(mesh.points(), *img)
                    &&& mesh.points().len() >= 1
                    &&& triangles_of_samples(mesh.triangles_view(), *img)
                    &&& #[trigger] rendering(
                        mesh.triangles_view(),
                        Fill::Flat,
                        img.spec_width() as int,
                        img.spec_height() as int,
                    ) == out@
                }
        },
{
    let mesh = match build_and_refine(
        img,
        config.n_initial_points,
        config.n_iterations,
        config.max_diff,
        seed,
    ) {
        Err(e) => {
            return Err(e);
        },
        Ok(mesh) => mesh,
    };
    let (width, height) = img.dimensions();
    let triangles = mesh.triangles();
    proof {
        assert(triangles_of_samples(triangles@, *img)) by {
            assert forall|k: int| 0 <= k < triangles@.len() implies {
                &&& is_sample((#[trigger] triangles@[k])[0], *img)
                &&& is_sample(triangles@[k][1], *img)
                &&& is_sample(triangles@[k][2], *img)
            } by {
                assert(mesh.points().contains(triangles@[k][0]));
                assert(mesh.points().contains(triangles@[k][1]));
                assert(mesh.points().contains(triangles@[k][2]));
            }
        }
    }
    let out = rasterize_triangles(&triangles, width, height, Fill::Flat);
    Ok(out)
}

/// Triangles between samples of an image of one colour are rendered in
/// that colour: every pixel of the rendering has the colour of the image,
/// made opaque, or was not painted at all.
pub proof fn lemma_rendering_of_uniform_image(
    triangles: Seq<[Point; 3]>,
    img: Raster,
    color: Rgba,
    fill: Fill,
    width: int,
    height: int,
    i: int,
)
    requires
        uniform(img, color),
        !img.spec_is_empty(),
        triangles_of_samples(triangles, img),
        0 <= i < width * height,
    ensures
        rendering(triangles, fill, width, height)[i] == Rgba::clear() || rendering(
            triangles,
            fill,
            width,
            height,
        )[i] == (Rgba { a: 255, ..color }),
{
    assert(corners_colored(triangles, color)) by {
        assert forall|k: int| 0 <= k < triangles.len() implies {
            &&& (#[trigger] triangles[k])[0].c == color
            &&& triangles[k][1].c == color
            &&& triangles[k][2].c == color
        } by {
            let t = triangles[k];
            lemma_sample_of_uniform(img, color, t[0].x as int, t[0].y as int);
            lemma_sample_of_uniform(img, color, t[1].x as int, t[1].y as int);
            lemma_sample_of_uniform(img, color, t[2].x as int, t[2].y as int);
        }
    }
    lemma_painted_in_one_color(triangles, fill, color, i % width, i / width);
}

} // verus!

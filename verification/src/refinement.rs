use vstd::prelude::*;
use crate::interpolation::{centroid, interpolate_triangle_centroid};
use crate::mesh::{corners_among, occupied, same_position, tidy, with_point, Mesh};
use crate::point::{Point, Rgba, UNITS_PER_PIXEL};
use crate::raster::{pixel_under, Raster};

verus! {

/// The distance between two channel values.
pub open spec fn channel_gap(a: u8, b: u8) -> int {
    if a >= b {
        a - b
    } else {
        b - a
    }
}

/// Whether the estimate strays from the truth by more than `max_diff` in
/// the red, the green or the blue channel. Alpha does not count.
pub open spec fn strays(estimate: Rgba, truth: Rgba, max_diff: int) -> bool {
    ||| channel_gap(estimate.r, truth.r) > max_diff
    ||| channel_gap(estimate.g, truth.g) > max_diff
    ||| channel_gap(estimate.b, truth.b) > max_diff
}

/// The point that a triangle proposes for the mesh, if any: its centroid
/// with the colour that the image has there, where the triangle's own
/// estimate strays from that colour. An image without pixels has no colour
/// to compare with, so nothing is proposed on it.
pub open spec fn proposal(triangle: [Point; 3], img: Raster, max_diff: int) -> Option<Point> {
    let c = centroid(triangle);
    let truth = img.sample(c.x as int, c.y as int);
    if !img.spec_is_empty() && strays(c.c, truth, max_diff) {
        Some(Point { c: truth, ..c })
    } else {
        None
    }
}

/// The proposals of all triangles, in the order of the triangles.
pub open spec fn proposals(triangles: Seq<[Point; 3]>, img: Raster, max_diff: int) -> Seq<Point>
    decreases triangles.len(),
{
    if triangles.len() == 0 {
        Seq::empty()
    } else {
        let earlier = proposals(triangles.drop_last(), img, max_diff);
        match proposal(triangles.last(), img, max_diff) {
            Some(p) => earlier.push(p),
            None => earlier,
        }
    }
}

/// The points of a mesh after all of `added` were put into it, first to
/// last.
pub open spec fn with_points(points: Seq<Point>, added: Seq<Point>) -> Seq<Point>
    decreases added.len(),
{
    if added.len() == 0 {
        points
    } else {
        with_point(with_points(points, added.drop_last()), added.last())
    }
}

/// Whether `p` is a sample of the image: a position on the image, with
/// the colour that the image has there.
pub open spec fn is_sample(p: Point, img: Raster) -> bool {
    &&& 0 <= p.x < img.spec_width() * UNITS_PER_PIXEL
    &&& 0 <= p.y < img.spec_height() * UNITS_PER_PIXEL
    &&& p.c == img.sample(p.x as int, p.y as int)
}

/// Whether every one of `points` is a sample of the image.
pub open spec fn all_samples(points: Seq<Point>, img: Raster) -> bool {
    forall|i: int| 0 <= i < points.len() ==> is_sample(#[trigger] points[i], img)
}

/// The points of a mesh after one refinement pass: the points before it
/// with the proposals of the triangles put into them.
pub open spec fn after_pass(
    points: Seq<Point>,
    triangles: Seq<[Point; 3]>,
    img: Raster,
    max_diff: int,
) -> Seq<Point> {
    with_points(points, proposals(triangles, img, max_diff))
}

/// Whether every mesh of `chain` but the last is well formed and is
/// followed by a mesh with the points that one refinement pass makes of
/// its own points and triangles.
pub open spec fn pass_chain(chain: Seq<Mesh>, img: Raster, max_diff: int) -> bool {
    forall|i: int|
        0 <= i < chain.len() - 1 ==> {
            &&& (#[trigger] chain[i]).wf()
            &&& chain[i + 1].points() == after_pass(
                chain[i].points(),
                chain[i].triangles_view(),
                img,
                max_diff,
            )
        }
}

/// The number of passes that a count of iterations stands for: none for a
/// count below zero.
pub open spec fn pass_count(n_iterations: int) -> int {
    if n_iterations > 0 {
        n_iterations
    } else {
        0
    }
}

/// Whether `n_iterations` refinement passes, one after the other, lead
/// from the mesh `from` to the mesh `to`: there is a chain of meshes from
/// the one to the other, one more than there are passes, in which every
/// mesh has the points that a pass makes of the mesh before it.
pub open spec fn refined(from: Mesh, to: Mesh, img: Raster, max_diff: int, n_iterations: int) -> bool {
    exists|chain: Seq<Mesh>|
        {
            &&& chain.len() == pass_count(n_iterations) + 1
            &&& chain[0] == from
            &&& chain[chain.len() - 1] == to
            &&& #[trigger] pass_chain(chain, img, max_diff)
        }
}

/// Whether all corners of all triangles are samples of the image.
pub open spec fn triangles_of_samples(triangles: Seq<[Point; 3]>, img: Raster) -> bool {
    forall|k: int|
        0 <= k < triangles.len() ==> {
            &&& is_sample((#[trigger] triangles[k])[0], img)
            &&& is_sample(triangles[k][1], img)
            &&& is_sample(triangles[k][2], img)
        }
}

/// Whether every pixel of the image has the colour `color`.
pub open spec fn uniform(img: Raster, color: Rgba) -> bool {
    forall|x: int, y: int|
        0 <= x < img.spec_width() && 0 <= y < img.spec_height() ==> #[trigger] img.pixel(x, y)
            == color
}

fn gap(a: u8, b: u8) -> (d: i32)
    ensures
        d == channel_gap(a, b),
        0 <= d <= 255,
{
    if a >= b {
        (a - b) as i32
    } else {
        (b - a) as i32
    }
}

/// Decides whether a colour estimate strays from the true colour by more
/// than `max_diff` in any of the three colour channels.
pub fn color_strays(estimate: Rgba, truth: Rgba, max_diff: i32) -> (r: bool)
    ensures
        r == strays(estimate, truth, max_diff as int),
        max_diff >= 255 ==> !r,
{
    gap(estimate.r, truth.r) > max_diff || gap(estimate.g, truth.g) > max_diff || gap(
        estimate.b,
        truth.b,
    ) > max_diff
}

/// Computes what `triangle` proposes for the mesh: its centroid, coloured
/// as the image is there, if its own colour estimate strays too far.
pub fn propose(triangle: &[Point; 3], img: &Raster, max_diff: i32) -> (r: Option<Point>)
    ensures
        r == proposal(*triangle, *img, max_diff as int),
{
    if img.is_empty() {
        return None;
    }
    let mut centroid = interpolate_triangle_centroid(triangle);
    let orig_color = img.sample_at(centroid.x, centroid.y);
    if color_strays(centroid.c, orig_color, max_diff) {
        centroid.c = orig_color;
        Some(centroid)
    } else {
        None
    }
}

/// The centroid of a triangle lies within the coordinate limit when its
/// corners do.
pub proof fn lemma_centroid_within_limit(t: [Point; 3])
    requires
        t[0].within_limit(),
        t[1].within_limit(),
        t[2].within_limit(),
    ensures
        centroid(t).within_limit(),
{
}

/// Putting a point into a mesh never makes the mesh smaller, and makes it
/// larger by one at most; the mesh is not empty afterwards.
pub proof fn lemma_with_point_len(points: Seq<Point>, p: Point)
    ensures
        points.len() <= with_point(points, p).len() <= points.len() + 1,
        with_point(points, p).len() >= 1,
{
}

/// Putting points into a mesh never makes the mesh smaller.
pub proof fn lemma_with_points_len(points: Seq<Point>, added: Seq<Point>)
    ensures
        points.len() <= with_points(points, added).len() <= points.len() + added.len(),
    decreases added.len(),
{
    if added.len() > 0 {
        lemma_with_points_len(points, added.drop_last());
        lemma_with_point_len(with_points(points, added.drop_last()), added.last());
    }
}

/// Putting a point into a mesh keeps every point of the mesh where and as
/// it is.
pub proof fn lemma_with_point_keeps(points: Seq<Point>, p: Point)
    ensures
        points.is_prefix_of(with_point(points, p)),
{
    assert(points =~= with_point(points, p).subrange(0, points.len() as int));
}

/// Putting points into a mesh keeps every point of the mesh where and as
/// it is: the mesh only grows.
pub proof fn lemma_with_points_keep(points: Seq<Point>, added: Seq<Point>)
    ensures
        points.is_prefix_of(with_points(points, added)),
    decreases added.len(),
{
    if added.len() > 0 {
        let earlier = with_points(points, added.drop_last());
        lemma_with_points_keep(points, added.drop_last());
        lemma_with_point_keeps(earlier, added.last());
        assert(points =~= with_points(points, added).subrange(0, points.len() as int)) by {
            assert(points =~= earlier.subrange(0, points.len() as int));
            assert(earlier =~= with_points(points, added).subrange(0, earlier.len() as int));
        }
    } else {
        assert(points =~= points.subrange(0, points.len() as int));
    }
}

/// The positions of a mesh after points were put into it are the
/// positions that it had and the positions of those points.
pub proof fn lemma_with_points_positions(points: Seq<Point>, added: Seq<Point>, q: Point)
    ensures
        occupied(with_points(points, added), q) <==> occupied(points, q) || occupied(added, q),
    decreases added.len(),
{
    if added.len() > 0 {
        let head = added.drop_last();
        let last = added.last();
        let earlier = with_points(points, head);
        let after = with_points(points, added);
        lemma_with_points_positions(points, head, q);
        lemma_with_points_positions(points, head, last);
        if occupied(after, q) {
            let i = choose|i: int| 0 <= i < after.len() && same_position(#[trigger] after[i], q);
            if i < earlier.len() {
                assert(same_position(earlier[i], q));
            } else {
                assert(after[i] == last);
                assert(same_position(added[added.len() - 1], q));
            }
        }
        if occupied(earlier, q) {
            let i = choose|i: int| 0 <= i < earlier.len() && same_position(#[trigger] earlier[i], q);
            assert(same_position(after[i], q));
        }
        if occupied(head, q) {
            let i = choose|i: int| 0 <= i < head.len() && same_position(#[trigger] head[i], q);
            assert(same_position(added[i], q));
        }
        if occupied(added, q) {
            let i = choose|i: int| 0 <= i < added.len() && same_position(#[trigger] added[i], q);
            if i < head.len() {
                assert(same_position(head[i], q));
            } else {
                assert(same_position(last, q));
                if occupied(earlier, last) {
                    let j = choose|j: int|
                        0 <= j < earlier.len() && same_position(#[trigger] earlier[j], last);
                    assert(same_position(after[j], q));
                } else {
                    assert(same_position(after[after.len() - 1], q));
                }
            }
        }
    }
}

/// Whether every point has the colour that the image has at its
/// position.
pub open spec fn colored_by(points: Seq<Point>, img: Raster) -> bool {
    forall|i: int|
        0 <= i < points.len() ==> (#[trigger] points[i]).c == img.sample(
            points[i].x as int,
            points[i].y as int,
        )
}

/// Whether each of `added` that stands where a point of `points` stands
/// is that point itself, colour and all.
pub open spec fn fits(points: Seq<Point>, added: Seq<Point>) -> bool {
    forall|i: int|
        0 <= i < added.len() && occupied(points, #[trigger] added[i]) ==> points.contains(added[i])
}

/// What triangles propose has the colour of the image at its position.
pub proof fn lemma_proposals_colored_by_image(
    triangles: Seq<[Point; 3]>,
    img: Raster,
    max_diff: int,
)
    ensures
        colored_by(proposals(triangles, img, max_diff), img),
    decreases triangles.len(),
{
    if triangles.len() > 0 {
        lemma_proposals_colored_by_image(triangles.drop_last(), img, max_diff);
    }
}

/// Where the points that are put into a mesh have the colours of one
/// image, the mesh afterwards holds exactly the points that it held, and
/// those of the new points that found their position free.
pub proof fn lemma_with_points_members(
    points: Seq<Point>,
    added: Seq<Point>,
    img: Raster,
    q: Point,
)
    requires
        colored_by(added, img),
    ensures
        with_points(points, added).contains(q) <==> points.contains(q) || (added.contains(q)
            && !occupied(points, q)),
    decreases added.len(),
{
    if added.len() > 0 {
        let head = added.drop_last();
        let last = added.last();
        let earlier = with_points(points, head);
        let after = with_points(points, added);
        assert(colored_by(head, img)) by {
            assert forall|i: int| 0 <= i < head.len() implies (#[trigger] head[i]).c == img.sample(
                head[i].x as int,
                head[i].y as int,
            ) by {
                assert(head[i] == added[i]);
            }
        }
        assert(added[added.len() - 1] == last);
        lemma_with_points_members(points, head, img, q);
        lemma_with_points_positions(points, head, q);
        if after.contains(q) {
            let i = choose|i: int| 0 <= i < after.len() && after[i] == q;
            if i < earlier.len() {
                assert(earlier[i] == q);
                if head.contains(q) {
                    let k = choose|k: int| 0 <= k < head.len() && head[k] == q;
                    assert(added[k] == q);
                }
            } else {
                assert(q == last);
                assert(!occupied(earlier, last));
            }
        }
        if earlier.contains(q) {
            let i = choose|i: int| 0 <= i < earlier.len() && earlier[i] == q;
            assert(after[i] == q);
        }
        if added.contains(q) && !occupied(points, q) {
            let i = choose|i: int| 0 <= i < added.len() && added[i] == q;
            if i < head.len() {
                assert(head[i] == q);
            } else {
                assert(q == last);
                if occupied(earlier, last) {
                    let j = choose|j: int|
                        0 <= j < earlier.len() && same_position(#[trigger] earlier[j], last);
                    let e = earlier[j];
                    assert(earlier.contains(e));
                    lemma_with_points_members(points, head, img, e);
                    if points.contains(e) {
                        let k = choose|k: int| 0 <= k < points.len() && points[k] == e;
                        assert(same_position(points[k], q));
                    } else {
                        let k = choose|k: int| 0 <= k < head.len() && head[k] == e;
                        assert(head[k].c == img.sample(head[k].x as int, head[k].y as int));
                        assert(e == last);
                    }
                } else {
                    assert(after[after.len() - 1] == q);
                }
            }
        }
    }
}

/// A pass leaves exactly the points that the mesh had, and those proposals
/// of its triangles that found their position free.
pub proof fn lemma_pass_adds_the_free_proposals(
    points: Seq<Point>,
    triangles: Seq<[Point; 3]>,
    img: Raster,
    max_diff: int,
    q: Point,
)
    ensures
        after_pass(points, triangles, img, max_diff).contains(q) <==> points.contains(q) || (
        proposals(triangles, img, max_diff).contains(q) && !occupied(points, q)),
{
    lemma_proposals_colored_by_image(triangles, img, max_diff);
    lemma_with_points_members(points, proposals(triangles, img, max_diff), img, q);
}

/// A pass leaves exactly the points that the mesh had and the points that
/// its triangles proposed: the new points are the centroids of the
/// triangles whose colour strays, and no others. This holds unless a
/// proposal stands where a point of another colour stands already: that
/// point stays as it is, and the proposal is not taken.
pub proof fn lemma_pass_adds_the_proposals(
    points: Seq<Point>,
    triangles: Seq<[Point; 3]>,
    img: Raster,
    max_diff: int,
    q: Point,
)
    requires
        fits(points, proposals(triangles, img, max_diff)),
    ensures
        after_pass(points, triangles, img, max_diff).contains(q) <==> points.contains(q)
            || proposals(triangles, img, max_diff).contains(q),
{
    lemma_pass_adds_the_free_proposals(points, triangles, img, max_diff, q);
    let added = proposals(triangles, img, max_diff);
    if added.contains(q) && occupied(points, q) {
        let i = choose|i: int| 0 <= i < added.len() && added[i] == q;
        assert(occupied(points, added[i]));
    }
}

/// Every proposal fits a mesh whose points all are samples of the image:
/// where it stands on a point of the mesh, it is that point.
pub proof fn lemma_proposals_fit_samples(
    points: Seq<Point>,
    triangles: Seq<[Point; 3]>,
    img: Raster,
    max_diff: int,
)
    requires
        all_samples(points, img),
    ensures
        fits(points, proposals(triangles, img, max_diff)),
{
    let added = proposals(triangles, img, max_diff);
    lemma_proposals_colored_by_image(triangles, img, max_diff);
    assert forall|i: int| 0 <= i < added.len() && occupied(points, #[trigger] added[i]) implies points.contains(
        added[i],
    ) by {
        let j = choose|j: int| 0 <= j < points.len() && same_position(#[trigger] points[j], added[i]);
        assert(is_sample(points[j], img));
        assert(points[j] == added[i]);
    }
}

/// The positions of a mesh after a pass are the positions that it had and
/// the positions that its triangles proposed, whatever the colours.
pub proof fn lemma_pass_adds_the_proposed_positions(
    points: Seq<Point>,
    triangles: Seq<[Point; 3]>,
    img: Raster,
    max_diff: int,
    q: Point,
)
    ensures
        occupied(after_pass(points, triangles, img, max_diff), q) <==> occupied(points, q)
            || occupied(proposals(triangles, img, max_diff), q),
{
    lemma_with_points_positions(points, proposals(triangles, img, max_diff), q);
}

/// With a threshold of 255 or more no triangle proposes a point: no two
/// channel values are further apart than that.
pub proof fn lemma_no_proposals_at_full_threshold(
    triangles: Seq<[Point; 3]>,
    img: Raster,
    max_diff: int,
)
    requires
        max_diff >= 255,
    ensures
        proposals(triangles, img, max_diff) == Seq::<Point>::empty(),
    decreases triangles.len(),
{
    if triangles.len() > 0 {
        lemma_no_proposals_at_full_threshold(triangles.drop_last(), img, max_diff);
    }
}

/// A mesh of samples stays one when a sample is put into it.
pub proof fn lemma_with_point_samples(points: Seq<Point>, p: Point, img: Raster)
    requires
        all_samples(points, img),
        is_sample(p, img),
    ensures
        all_samples(with_point(points, p), img),
{
}

/// A mesh of samples stays one when samples are put into it.
pub proof fn lemma_with_points_samples(points: Seq<Point>, added: Seq<Point>, img: Raster)
    requires
        all_samples(points, img),
        all_samples(added, img),
    ensures
        all_samples(with_points(points, added), img),
    decreases added.len(),
{
    if added.len() > 0 {
        assert(all_samples(added.drop_last(), img)) by {
            assert forall|i: int| 0 <= i < added.drop_last().len() implies is_sample(
                #[trigger] added.drop_last()[i],
                img,
            ) by {
                assert(added.drop_last()[i] == added[i]);
            }
        }
        lemma_with_points_samples(points, added.drop_last(), img);
        assert(is_sample(added.last(), img));
        lemma_with_point_samples(with_points(points, added.drop_last()), added.last(), img);
    }
}

/// What a triangle between samples proposes is a sample again.
pub proof fn lemma_proposal_is_sample(t: [Point; 3], img: Raster, max_diff: int)
    requires
        is_sample(t[0], img),
        is_sample(t[1], img),
        is_sample(t[2], img),
    ensures
        proposal(t, img, max_diff).is_some() ==> is_sample(proposal(t, img, max_diff).unwrap(), img),
{
}

/// The triangles of a mesh of samples propose samples only.
pub proof fn lemma_proposals_are_samples(
    points: Seq<Point>,
    triangles: Seq<[Point; 3]>,
    img: Raster,
    max_diff: int,
)
    requires
        all_samples(points, img),
        corners_among(points, triangles),
    ensures
        all_samples(proposals(triangles, img, max_diff), img),
    decreases triangles.len(),
{
    if triangles.len() > 0 {
        let earlier = triangles.drop_last();
        assert(corners_among(points, earlier)) by {
            assert forall|k: int| 0 <= k < earlier.len() implies {
                &&& points.contains((#[trigger] earlier[k])[0])
                &&& points.contains(earlier[k][1])
                &&& points.contains(earlier[k][2])
            } by {
                assert(earlier[k] == triangles[k]);
            }
        }
        lemma_proposals_are_samples(points, earlier, img, max_diff);
        let t = triangles.last();
        assert(t == triangles[triangles.len() - 1]);
        assert(points.contains(t[0]) && points.contains(t[1]) && points.contains(t[2]));
        lemma_proposal_is_sample(t, img, max_diff);
    }
}

/// A pass with a threshold of 255 or more leaves the points of a mesh as
/// they are, whatever its triangles.
pub proof fn lemma_full_threshold_pass_changes_nothing(
    points: Seq<Point>,
    triangles: Seq<[Point; 3]>,
    img: Raster,
    max_diff: int,
)
    requires
        max_diff >= 255,
    ensures
        after_pass(points, triangles, img, max_diff) == points,
{
    lemma_no_proposals_at_full_threshold(triangles, img, max_diff);
}

/// A pass never leaves fewer points than it found. So two passes never
/// leave fewer points than one: whatever triangles the mesh has after the
/// first pass, the second pass keeps every point that the first pass left.
pub proof fn lemma_passes_never_lose_points(
    points: Seq<Point>,
    first: Seq<[Point; 3]>,
    second: Seq<[Point; 3]>,
    img: Raster,
    max_diff: int,
)
    ensures
        after_pass(points, first, img, max_diff).len() >= points.len(),
        after_pass(after_pass(points, first, img, max_diff), second, img, max_diff).len()
            >= after_pass(points, first, img, max_diff).len(),
{
    let once = after_pass(points, first, img, max_diff);
    lemma_with_points_len(points, proposals(first, img, max_diff));
    lemma_with_points_len(once, proposals(second, img, max_diff));
}

/// On an image of one colour, no triangle between samples proposes a
/// point, whatever the threshold (if it is not negative): there is no
/// variation to find.
pub proof fn lemma_uniform_image_proposes_nothing(
    triangles: Seq<[Point; 3]>,
    img: Raster,
    color: Rgba,
    max_diff: int,
)
    requires
        uniform(img, color),
        triangles_of_samples(triangles, img),
        max_diff >= 0,
    ensures
        proposals(triangles, img, max_diff) == Seq::<Point>::empty(),
    decreases triangles.len(),
{
    if triangles.len() > 0 {
        let earlier = triangles.drop_last();
        assert(triangles_of_samples(earlier, img)) by {
            assert forall|k: int| 0 <= k < earlier.len() implies {
                &&& is_sample((#[trigger] earlier[k])[0], img)
                &&& is_sample(earlier[k][1], img)
                &&& is_sample(earlier[k][2], img)
            } by {
                assert(earlier[k] == triangles[k]);
            }
        }
        lemma_uniform_image_proposes_nothing(earlier, img, color, max_diff);
        let t = triangles.last();
        assert(t == triangles[triangles.len() - 1]);
        if !img.spec_is_empty() {
            lemma_sample_of_uniform(img, color, t[0].x as int, t[0].y as int);
            lemma_sample_of_uniform(img, color, t[1].x as int, t[1].y as int);
            lemma_sample_of_uniform(img, color, t[2].x as int, t[2].y as int);
            lemma_sample_of_uniform(img, color, centroid(t).x as int, centroid(t).y as int);
        }
    }
}

/// Every sample of an image of one colour has that colour.
pub proof fn lemma_sample_of_uniform(img: Raster, color: Rgba, x: int, y: int)
    requires
        uniform(img, color),
        !img.spec_is_empty(),
    ensures
        img.sample(x, y) == color,
{
    let col = pixel_under(x, img.spec_width() as int);
    let row = pixel_under(y, img.spec_height() as int);
    assert(img.pixel(col, row) == color);
}

/// One refinement pass. Every triangle of the mesh as it is on entry makes
/// its proposal, and only then are the proposed points put into the mesh,
/// in the order of the triangles. A pass without proposals leaves the mesh
/// as it is.
pub fn refine_mesh_by_centroid(mesh: &mut Mesh, img: &Raster, max_diff: i32)
    requires
        old(mesh).wf(),
    ensures
        final(mesh).wf(),
        final(mesh).points() == after_pass(
            old(mesh).points(),
            old(mesh).triangles_view(),
            *img,
            max_diff as int,
        ),
        old(mesh).points().is_prefix_of(final(mesh).points()),
        proposals(old(mesh).triangles_view(), *img, max_diff as int).len() == 0
            ==> final(mesh).faces() == old(mesh).faces(),
        max_diff >= 255 ==> final(mesh).points() == old(mesh).points() && final(mesh).faces()
            == old(mesh).faces(),
        all_samples(old(mesh).points(), *img) ==> all_samples(final(mesh).points(), *img),
{
    let triangles = mesh.triangles();
    let mut new_points: Vec<Point> = Vec::new();
    let mut k: usize = 0;
    proof {
        mesh.lemma_points_tidy();
    }
    while k < triangles.len()
        invariant
            k <= triangles@.len(),
            tidy(mesh.points()),
            corners_among(mesh.points(), triangles@),
            new_points@ == proposals(triangles@.take(k as int), *img, max_diff as int),
            forall|j: int| 0 <= j < new_points@.len() ==> (#[trigger] new_points@[j]).within_limit(),
        decreases triangles@.len() - k,
    {
        let triangle = &triangles[k];
        proof {
            assert(triangles@.take(k as int + 1).drop_last() =~= triangles@.take(k as int));
            assert(triangles@.take(k as int + 1).last() == triangles@[k as int]);
            assert(mesh.points().contains(triangles@[k as int][0]));
            assert(mesh.points().contains(triangles@[k as int][1]));
            assert(mesh.points().contains(triangles@[k as int][2]));
            lemma_centroid_within_limit(*triangle);
        }
        match propose(triangle, img, max_diff) {
            Some(p) => {
                new_points.push(p);
            },
            None => {},
        }
        k += 1;
    }
    proof {
        assert(triangles@.take(k as int) =~= triangles@);
        lemma_with_points_keep(mesh.points(), new_points@);
        if max_diff >= 255 {
            lemma_no_proposals_at_full_threshold(triangles@, *img, max_diff as int);
        }
        if all_samples(mesh.points(), *img) {
            lemma_proposals_are_samples(mesh.points(), triangles@, *img, max_diff as int);
            lemma_with_points_samples(mesh.points(), new_points@, *img);
        }
    }
    let ghost before = mesh.points();
    let ghost faces_before = mesh.faces();
    let mut j: usize = 0;
    while j < new_points.len()
        invariant
            j <= new_points@.len(),
            mesh.wf(),
            mesh.points() == with_points(before, new_points@.take(j as int)),
            forall|i: int| 0 <= i < new_points@.len() ==> (#[trigger] new_points@[i]).within_limit(),
            j == 0 ==> mesh.faces() == faces_before,
        decreases new_points@.len() - j,
    {
        proof {
            assert(new_points@.take(j as int + 1).drop_last() =~= new_points@.take(j as int));
            assert(new_points@.take(j as int + 1).last() == new_points@[j as int]);
        }
        mesh.insert(new_points[j]);
        j += 1;
    }
    proof {
        assert(new_points@.take(j as int) =~= new_points@);
    }
}

/// Runs `n_iterations` refinement passes, one after the other; none for a
/// count of zero or less. Every pass is run, also after one that proposed
/// nothing, and every pass works on the mesh as the pass before it left
/// it. The mesh keeps every point that it had, and with a threshold of 255
/// or more it stays as it is.
pub fn refine_mesh(mesh: &mut Mesh, img: &Raster, n_iterations: i32, max_diff: i32)
    requires
        old(mesh).wf(),
    ensures
        final(mesh).wf(),
        refined(*old(mesh), *final(mesh), *img, max_diff as int, n_iterations as int),
        old(mesh).points().is_prefix_of(final(mesh).points()),
        n_iterations <= 0 || max_diff >= 255 ==> final(mesh).points() == old(mesh).points()
            && final(mesh).faces() == old(mesh).faces(),
        n_iterations == 1 ==> final(mesh).points() == after_pass(
            old(mesh).points(),
            old(mesh).triangles_view(),
            *img,
            max_diff as int,
        ),
        n_iterations >= 1 ==> after_pass(
            old(mesh).points(),
            old(mesh).triangles_view(),
            *img,
            max_diff as int,
        ).is_prefix_of(final(mesh).points()),
        all_samples(old(mesh).points(), *img) ==> all_samples(final(mesh).points(), *img),
{
    let ghost first = after_pass(
        old(mesh).points(),
        old(mesh).triangles_view(),
        *img,
        max_diff as int,
    );
    let ghost mut chain: Seq<Mesh> = seq![*mesh];
    let mut pass: i32 = 0;
    proof {
        lemma_prefix_of_itself(mesh.points());
    }
    while pass < n_iterations
        invariant
            0 <= pass,
            pass <= n_iterations || pass == 0,
            mesh.wf(),
            chain.len() == pass + 1,
            chain[0] == *old(mesh),
            chain[chain.len() - 1] == *mesh,
            pass_chain(chain, *img, max_diff as int),
            old(mesh).points().is_prefix_of(mesh.points()),
            pass == 0 || max_diff >= 255 ==> mesh.points() == old(mesh).points() && mesh.faces()
                == old(mesh).faces(),
            first == after_pass(
                old(mesh).points(),
                old(mesh).triangles_view(),
                *img,
                max_diff as int,
            ),
            pass == 1 ==> mesh.points() == first,
            pass >= 1 ==> first.is_prefix_of(mesh.points()),
            all_samples(old(mesh).points(), *img) ==> all_samples(mesh.points(), *img),
        decreases n_iterations - pass,
    {
        let ghost before = *mesh;
        let ghost earlier = chain;
        refine_mesh_by_centroid(mesh, img, max_diff);
        pass += 1;
        proof {
            chain = earlier.push(*mesh);
            assert forall|i: int| 0 <= i < chain.len() - 1 implies {
                &&& (#[trigger] chain[i]).wf()
                &&& chain[i + 1].points() == after_pass(
                    chain[i].points(),
                    chain[i].triangles_view(),
                    *img,
                    max_diff as int,
                )
            } by {
                if i < earlier.len() - 1 {
                    assert(earlier[i].wf());
                    assert(chain[i] == earlier[i] && chain[i + 1] == earlier[i + 1]);
                } else {
                    assert(chain[i] == before);
                }
            }
            lemma_prefix_of_prefix(old(mesh).points(), before.points(), mesh.points());
            if pass == 1 {
                lemma_prefix_of_itself(first);
            } else {
                lemma_prefix_of_prefix(first, before.points(), mesh.points());
            }
        }
    }
}

/// Every list of points begins with itself.
proof fn lemma_prefix_of_itself(points: Seq<Point>)
    ensures
        points.is_prefix_of(points),
{
    assert(points =~= points.subrange(0, points.len() as int));
}

/// What begins a list that begins another list begins that other list.
proof fn lemma_prefix_of_prefix(a: Seq<Point>, b: Seq<Point>, c: Seq<Point>)
    requires
        a.is_prefix_of(b),
        b.is_prefix_of(c),
    ensures
        a.is_prefix_of(c),
{
    assert(a =~= c.subrange(0, a.len() as int)) by {
        assert(a =~= b.subrange(0, a.len() as int));
        assert(b =~= c.subrange(0, b.len() as int));
    }
}

} // verus!

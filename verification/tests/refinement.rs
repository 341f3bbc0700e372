use trimage::mesh::Mesh;
use trimage::mesh_from_samples;
use trimage::point::{Point, Rgba, UNITS_PER_PIXEL};
use trimage::raster::Raster;
use trimage::refinement::{color_strays, propose, refine_mesh, refine_mesh_by_centroid};

const U: i32 = UNITS_PER_PIXEL;

fn red() -> Rgba {
    Rgba::new(255, 0, 0, 255)
}

fn blue() -> Rgba {
    Rgba::new(0, 0, 255, 255)
}

/// An image whose left half is red and whose right half is blue.
fn two_halves(width: u32, height: u32) -> Raster {
    let mut img = Raster::new(width, height);
    for y in 0..height {
        for x in 0..width {
            img.put_pixel(x, y, if x < width / 2 { red() } else { blue() });
        }
    }
    img
}

#[test]
fn test_color_strays() {
    let a = Rgba::new(100, 100, 100, 255);
    assert!(!color_strays(a, Rgba::new(115, 85, 100, 0), 15));
    assert!(color_strays(a, Rgba::new(116, 100, 100, 255), 15));
    assert!(color_strays(a, Rgba::new(84, 100, 100, 255), 15));
    // green counts as much as red and blue do
    assert!(color_strays(a, Rgba::new(100, 116, 100, 255), 15));
    assert!(color_strays(a, Rgba::new(100, 100, 84, 255), 15));
    // alpha does not count
    assert!(!color_strays(a, Rgba::new(100, 100, 100, 0), 0));
    assert!(color_strays(a, Rgba::new(100, 101, 100, 255), 0));
    assert!(!color_strays(Rgba::new(0, 0, 0, 255), Rgba::new(255, 255, 255, 255), 255));
    assert!(color_strays(Rgba::new(0, 0, 0, 255), Rgba::new(255, 255, 255, 255), 254));
    assert!(color_strays(a, a, -1));
}

#[test]
fn test_propose() {
    let img = two_halves(20, 10);
    // a triangle across the border: its flat colour is (170, 0, 85), its
    // centroid lies on pixel (9, 3), which is red
    let across = [
        Point::new(0, 0, red()),
        Point::new(8 * U, 9 * U, red()),
        Point::new(19 * U, 0, blue()),
    ];
    assert_eq!(propose(&across, &img, 15), Some(Point::new(9 * U, 3 * U, red())));
    assert_eq!(propose(&across, &img, 84), Some(Point::new(9 * U, 3 * U, red())));
    assert_eq!(propose(&across, &img, 85), None);
    // a triangle on one side
    let left = [Point::new(0, 0, red()), Point::new(8 * U, 9 * U, red()), Point::new(U, 9 * U, red())];
    assert_eq!(propose(&left, &img, 0), None);
    // nothing is proposed on an image without pixels
    assert_eq!(propose(&across, &Raster::new(0, 0), 15), None);
}

#[test]
fn test_propose_keeps_the_centroid_between_pixels() {
    let img = Raster::filled(4, 4, Rgba::new(200, 200, 200, 255));
    let t = [
        Point::new(0, 0, Rgba::new(0, 0, 0, 255)),
        Point::new(U, 0, Rgba::new(0, 0, 0, 255)),
        Point::new(0, U, Rgba::new(0, 0, 0, 255)),
    ];
    assert_eq!(
        propose(&t, &img, 15),
        Some(Point::new(85, 85, Rgba::new(200, 200, 200, 255)))
    );
}

#[test]
fn test_propose_off_the_image_takes_the_nearest_pixel() {
    let img = two_halves(4, 4);
    let t = [
        Point::new(90 * U, -50 * U, Rgba::new(0, 0, 0, 255)),
        Point::new(91 * U, -50 * U, Rgba::new(0, 0, 0, 255)),
        Point::new(92 * U, -53 * U, Rgba::new(0, 0, 0, 255)),
    ];
    assert_eq!(propose(&t, &img, 15), Some(Point::new(91 * U, -51 * U, blue())));
}

#[test]
fn test_uniform_image_is_never_refined() {
    let color = Rgba::new(10, 120, 230, 255);
    let img = Raster::filled(10, 10, color);
    let mut mesh = mesh_from_samples(&img, &vec![]);
    assert_eq!(mesh.num_vertices(), 4);
    assert_eq!(mesh.triangles().len(), 2);
    for _ in 0..3 {
        refine_mesh_by_centroid(&mut mesh, &img, 15);
        assert_eq!(mesh.num_vertices(), 4);
        assert_eq!(mesh.triangles().len(), 2);
    }
    assert_eq!(
        mesh.vertices().as_slice(),
        &[
            Point::new(0, 0, color),
            Point::new(9 * U, 0, color),
            Point::new(0, 9 * U, color),
            Point::new(9 * U, 9 * U, color),
        ][..]
    );
}

#[test]
fn test_full_threshold_leaves_the_mesh_alone() {
    let img = two_halves(20, 10);
    let positions = vec![(3 * U, 4 * U), (15 * U, 2 * U), (10 * U, 7 * U), (9 * U + 7, 50)];
    let mut mesh = mesh_from_samples(&img, &positions);
    let points = mesh.vertices().clone();
    let triangles = mesh.triangles();
    assert_eq!(points.len(), 8);
    refine_mesh(&mut mesh, &img, 5, 255);
    assert_eq!(mesh.vertices(), &points);
    assert_eq!(mesh.triangles(), triangles);
    refine_mesh(&mut mesh, &img, 5, 1000);
    assert_eq!(mesh.vertices(), &points);
    assert_eq!(mesh.triangles(), triangles);
}

#[test]
fn test_no_pass_for_a_count_of_zero_or_less() {
    let img = two_halves(20, 10);
    let mut mesh = mesh_from_samples(&img, &vec![(10 * U, 5 * U)]);
    let points = mesh.vertices().clone();
    refine_mesh(&mut mesh, &img, 0, 0);
    assert_eq!(mesh.vertices(), &points);
    refine_mesh(&mut mesh, &img, -3, 0);
    assert_eq!(mesh.vertices(), &points);
}

#[test]
fn test_more_passes_never_give_fewer_points() {
    let img = two_halves(20, 10);
    let positions = vec![(3 * U, 4 * U), (15 * U, 2 * U), (10 * U, 7 * U)];
    let mut once = mesh_from_samples(&img, &positions);
    let mut twice = mesh_from_samples(&img, &positions);
    let before = once.num_vertices();
    refine_mesh(&mut once, &img, 1, 15);
    refine_mesh(&mut twice, &img, 2, 15);
    assert!(once.num_vertices() >= before);
    assert!(twice.num_vertices() >= once.num_vertices());
    assert!(once.num_vertices() > before);
}

#[test]
fn test_pass_inserts_the_proposals_of_the_mesh_before_it() {
    let img = two_halves(20, 10);
    let positions = vec![(3 * U, 4 * U), (15 * U, 2 * U), (10 * U, 7 * U)];
    let mut mesh = mesh_from_samples(&img, &positions);
    let before = mesh.vertices().clone();
    let proposals: Vec<Point> =
        mesh.triangles().iter().filter_map(|t| propose(t, &img, 15)).collect();
    assert!(!proposals.is_empty());
    let mut expected = Mesh::new();
    for p in before.iter().chain(proposals.iter()) {
        expected.insert(*p);
    }
    refine_mesh_by_centroid(&mut mesh, &img, 15);
    assert_eq!(mesh.vertices(), expected.vertices());
    assert_eq!(mesh.num_vertices(), before.len() + proposals.len());
}

#[test]
fn test_two_halves_are_refined_along_the_border() {
    let img = two_halves(20, 10);
    let positions = vec![(3 * U, 4 * U), (15 * U, 2 * U), (10 * U, 7 * U), (6 * U, 8 * U)];
    let mut mesh = mesh_from_samples(&img, &positions);
    let before = mesh.vertices().clone();
    let mut flagged = 0;
    for t in mesh.triangles().iter() {
        let all_left = t.iter().all(|p| p.x < 10 * U);
        let all_right = t.iter().all(|p| p.x >= 10 * U);
        let proposal = propose(t, &img, 15);
        if all_left || all_right {
            assert_eq!(proposal, None);
        }
        if proposal.is_some() {
            flagged += 1;
        }
    }
    assert!(flagged > 0);
    refine_mesh_by_centroid(&mut mesh, &img, 15);
    let after = mesh.vertices();
    assert_eq!(after.len(), before.len() + flagged);
    assert_eq!(&after[..before.len()], &before[..]);
    for p in after[before.len()..].iter() {
        // a new point is the centroid of a triangle with corners on both
        // sides of the border, so it lies in the middle band of the image,
        // and it has the colour of its pixel
        assert!(10 * U / 3 <= p.x && p.x <= (48 * U - 1) / 3);
        assert!(0 <= p.y && p.y < 10 * U);
        assert_eq!(p.c, if p.x < 10 * U { red() } else { blue() });
    }
}

#[test]
fn test_one_iteration_is_one_pass() {
    let img = two_halves(20, 10);
    let positions = vec![(3 * U, 4 * U), (15 * U, 2 * U), (10 * U, 7 * U)];
    let mut by_pass = mesh_from_samples(&img, &positions);
    let mut by_count = mesh_from_samples(&img, &positions);
    refine_mesh_by_centroid(&mut by_pass, &img, 15);
    refine_mesh(&mut by_count, &img, 1, 15);
    assert_eq!(by_pass.vertices(), by_count.vertices());
    assert_eq!(by_pass.triangles(), by_count.triangles());
}

#[test]
fn test_pass_keeps_the_point_at_a_proposed_position() {
    // the centroid of this triangle rounds down to the corner at (0, 0)
    let black = Rgba::new(0, 0, 0, 255);
    let mut mesh = Mesh::new();
    mesh.insert(Point::new(0, 0, black));
    mesh.insert(Point::new(1, 0, black));
    mesh.insert(Point::new(0, 1, black));
    let before = mesh.vertices().clone();
    let triangles = mesh.triangles();
    assert_eq!(triangles.len(), 1);
    let img = Raster::filled(2, 2, Rgba::new(255, 255, 255, 255));
    assert_eq!(
        propose(&triangles[0], &img, 15),
        Some(Point::new(0, 0, Rgba::new(255, 255, 255, 255)))
    );
    refine_mesh_by_centroid(&mut mesh, &img, 15);
    assert_eq!(mesh.vertices(), &before);
    assert_eq!(mesh.triangles(), triangles);
}

#[test]
fn test_passes_keep_every_point_in_its_place() {
    let img = two_halves(20, 10);
    let positions = vec![(3 * U, 4 * U), (15 * U, 2 * U), (10 * U, 7 * U), (6 * U, 8 * U)];
    let mut mesh = mesh_from_samples(&img, &positions);
    let mut before = mesh.vertices().clone();
    for _ in 0..4 {
        refine_mesh_by_centroid(&mut mesh, &img, 15);
        let after = mesh.vertices().clone();
        assert!(after.len() >= before.len());
        assert_eq!(&after[..before.len()], &before[..]);
        before = after;
    }
    assert!(before.len() > 8);
}

#[test]
fn test_every_iteration_is_a_pass_on_the_mesh_before_it() {
    let img = two_halves(20, 10);
    let positions = vec![(3 * U, 4 * U), (15 * U, 2 * U), (10 * U, 7 * U)];
    let mut by_pass = mesh_from_samples(&img, &positions);
    let mut by_count = mesh_from_samples(&img, &positions);
    let mut sizes = vec![by_pass.num_vertices()];
    for _ in 0..3 {
        refine_mesh_by_centroid(&mut by_pass, &img, 15);
        sizes.push(by_pass.num_vertices());
    }
    refine_mesh(&mut by_count, &img, 3, 15);
    assert_eq!(by_pass.vertices(), by_count.vertices());
    assert_eq!(by_pass.triangles(), by_count.triangles());
    // each of the three passes found something to add
    assert!(sizes[0] < sizes[1] && sizes[1] < sizes[2] && sizes[2] < sizes[3]);
}

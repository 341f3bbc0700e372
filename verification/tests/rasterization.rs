use trimage::mesh::Mesh;
use trimage::point::{Point, Rgba, UNITS_PER_PIXEL};
use trimage::rasterization::{rasterize_mesh, rasterize_triangles, Fill};

const U: i32 = UNITS_PER_PIXEL;

fn clear() -> Rgba {
    Rgba::new(0, 0, 0, 0)
}

fn rgb_triangle() -> [Point; 3] {
    [
        Point::new(0, 0, Rgba::new(255, 0, 0, 255)),
        Point::new(9 * U, 0, Rgba::new(0, 255, 0, 255)),
        Point::new(0, 9 * U, Rgba::new(0, 0, 255, 255)),
    ]
}

fn distance(a: Rgba, b: Rgba) -> i32 {
    (a.r as i32 - b.r as i32).abs() + (a.g as i32 - b.g as i32).abs() + (a.b as i32 - b.b as i32).abs()
}

#[test]
fn test_weighted_fill_blends_at_the_centroid() {
    let t = rgb_triangle();
    let img = rasterize_triangles(&vec![t], 10, 10, Fill::Weighted);
    let middle = img.get_pixel(3, 3);
    assert_eq!(middle, Rgba::new(85, 85, 85, 255));
    let blend = Rgba::new(85, 85, 85, 255);
    for v in t.iter() {
        assert!(distance(middle, blend) < distance(middle, v.c));
    }
    // the vertex at the origin is painted in its own colour
    assert_eq!(img.get_pixel(0, 0), Rgba::new(255, 0, 0, 255));
    // 255 * 6 / 9 = 170, 255 * 2 / 9 = 56.7, 255 * 1 / 9 = 28.3
    assert_eq!(img.get_pixel(2, 1), Rgba::new(170, 56, 28, 255));
}

#[test]
fn test_flat_fill_of_one_triangle() {
    let t = rgb_triangle();
    let img = rasterize_triangles(&vec![t], 10, 10, Fill::Flat);
    assert_eq!(img.dimensions(), (10, 10));
    for row in 0..10u32 {
        for col in 0..10u32 {
            // the box ends before column 9 and row 9
            let covered = col + row <= 9 && col < 9 && row < 9;
            let expected = if covered { Rgba::new(85, 85, 85, 255) } else { clear() };
            assert_eq!(img.get_pixel(col, row), expected, "pixel ({}, {})", col, row);
        }
    }
}

#[test]
fn test_winding_does_not_change_the_picture() {
    let t = rgb_triangle();
    let reversed = [t[2], t[1], t[0]];
    let clockwise = [t[0], t[2], t[1]];
    let img = rasterize_triangles(&vec![t], 10, 10, Fill::Flat);
    for other in [reversed, clockwise].iter() {
        let same = rasterize_triangles(&vec![*other], 10, 10, Fill::Flat);
        assert_eq!(same.pixels(), img.pixels());
    }
    // the rim is painted: the edges along the axes and the long edge
    assert_eq!(img.get_pixel(0, 0), Rgba::new(85, 85, 85, 255));
    assert_eq!(img.get_pixel(4, 0), Rgba::new(85, 85, 85, 255));
    assert_eq!(img.get_pixel(0, 4), Rgba::new(85, 85, 85, 255));
    assert_eq!(img.get_pixel(4, 5), Rgba::new(85, 85, 85, 255));
    assert_eq!(img.get_pixel(5, 5), clear());
}

#[test]
fn test_neighbours_leave_no_gap() {
    let c = Rgba::new(40, 40, 40, 255);
    // two triangles that share the diagonal of a square, given in
    // opposite windings
    let lower = [Point::new(0, 0, c), Point::new(8 * U, 0, c), Point::new(0, 8 * U, c)];
    let upper = [Point::new(8 * U, 8 * U, c), Point::new(8 * U, 0, c), Point::new(0, 8 * U, c)];
    let img = rasterize_triangles(&vec![lower, upper], 8, 8, Fill::Flat);
    assert_eq!(img.pixels().as_slice(), &[c; 64][..]);
}

#[test]
fn test_last_triangle_wins() {
    let a = Rgba::new(30, 30, 30, 255);
    let b = Rgba::new(90, 90, 90, 255);
    let first = [Point::new(0, 0, a), Point::new(4 * U, 0, a), Point::new(0, 4 * U, a)];
    let second = [Point::new(0, 0, b), Point::new(2 * U, 0, b), Point::new(0, 2 * U, b)];
    let img = rasterize_triangles(&vec![first, second], 4, 4, Fill::Flat);
    assert_eq!(img.get_pixel(0, 0), b);
    assert_eq!(img.get_pixel(1, 0), b);
    assert_eq!(img.get_pixel(0, 1), b);
    assert_eq!(img.get_pixel(1, 1), b);
    assert_eq!(img.get_pixel(2, 1), a);
    assert_eq!(img.get_pixel(2, 0), a);
    assert_eq!(img.get_pixel(3, 0), a);
    assert_eq!(img.get_pixel(3, 3), clear());
    let img = rasterize_triangles(&vec![second, first], 4, 4, Fill::Flat);
    assert_eq!(img.get_pixel(0, 0), a);
    assert_eq!(img.get_pixel(1, 0), a);
}

#[test]
fn test_triangle_between_pixel_corners() {
    let c = Rgba::new(7, 7, 7, 255);
    // from 0.5 to 3.5 pixels: the box reaches from pixel 0 to pixel 3
    let t = [
        Point::new(U / 2, U / 2, c),
        Point::new(3 * U + U / 2, U / 2, c),
        Point::new(U / 2, 3 * U + U / 2, c),
    ];
    let img = rasterize_triangles(&vec![t], 5, 5, Fill::Flat);
    for row in 0..5u32 {
        for col in 0..5u32 {
            let covered = col >= 1 && row >= 1 && col + row <= 4;
            let expected = if covered { c } else { clear() };
            assert_eq!(img.get_pixel(col, row), expected, "pixel ({}, {})", col, row);
        }
    }
}

#[test]
fn test_triangle_larger_than_the_image() {
    let c = Rgba::new(50, 60, 70, 255);
    let t = [
        Point::new(-100 * U, -100 * U, c),
        Point::new(300 * U, -100 * U, c),
        Point::new(-100 * U, 300 * U, c),
    ];
    let img = rasterize_triangles(&vec![t], 3, 2, Fill::Flat);
    assert_eq!(img.pixels().as_slice(), &[c; 6][..]);
    // a triangle that lies off the image paints nothing
    let off = [
        Point::new(-100 * U, -100 * U, c),
        Point::new(-50 * U, -100 * U, c),
        Point::new(-100 * U, -50 * U, c),
    ];
    let img = rasterize_triangles(&vec![off], 3, 2, Fill::Flat);
    assert_eq!(img.pixels().as_slice(), &[clear(); 6][..]);
}

#[test]
fn test_image_without_pixels() {
    let t = rgb_triangle();
    let img = rasterize_triangles(&vec![t], 0, 7, Fill::Flat);
    assert_eq!(img.dimensions(), (0, 7));
    assert!(img.pixels().is_empty());
    let img = rasterize_triangles(&vec![], 2, 2, Fill::Weighted);
    assert_eq!(img.pixels().as_slice(), &[clear(); 4][..]);
}

#[test]
fn test_rasterize_mesh_paints_flat() {
    let mut mesh = Mesh::new();
    for p in rgb_triangle().iter() {
        mesh.insert(*p);
    }
    let img = rasterize_mesh(&mesh, 10, 10);
    let triangles = mesh.triangles();
    assert_eq!(triangles.len(), 1);
    let same = rasterize_triangles(&triangles, 10, 10, Fill::Flat);
    assert_eq!(img.pixels(), same.pixels());
    assert_eq!(img.get_pixel(4, 4), Rgba::new(85, 85, 85, 255));
    assert_eq!(img.get_pixel(5, 5), clear());
}

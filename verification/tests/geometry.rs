use trimage::boundingbox::BoundingBox;
use trimage::mesh::Mesh;
use trimage::point::{Point, Rgba};
use trimage::topology::{is_ccw, is_point_in_triangle, turn_of};

fn create_simple_triangulation() -> Mesh {
    let mut delaunay = Mesh::new();
    delaunay.insert(Point { x: 0, y: 0, c: Rgba::new(255, 0, 0, 255) });
    delaunay.insert(Point { x: 10, y: 0, c: Rgba::new(0, 255, 0, 255) });
    delaunay.insert(Point { x: 0, y: 10, c: Rgba::new(0, 0, 255, 255) });
    delaunay
}

fn white(x: i32, y: i32) -> Point {
    Point::new(x, y, Rgba::new(255, 255, 255, 255))
}

#[test]
fn test_creation() {
    let (xmin, xmax, ymin, ymax) = (0, 1, 2, 3);
    let bbox = BoundingBox { xmin, xmax, ymin, ymax };

    assert_eq!(bbox.xmin, xmin);
    assert_eq!(bbox.xmax, xmax);
    assert_eq!(bbox.ymin, ymin);
    assert_eq!(bbox.ymax, ymax);
}

#[test]
fn test_creation_from_triangle() {
    let mesh = create_simple_triangulation();
    let triangles = mesh.triangles();
    assert_eq!(triangles.len(), 1);

    for triangle in triangles.iter() {
        let bbox = BoundingBox::from_triangle(triangle);

        assert_eq!(bbox.xmin, 0);
        assert_eq!(bbox.xmax, 10);
        assert_eq!(bbox.ymin, 0);
        assert_eq!(bbox.ymax, 10);
    }
}

#[test]
fn test_point_in_triangle() {
    let point_in = Point::new(5, 5, Rgba::new(255, 255, 255, 255));
    let point_out = Point::new(15, 15, Rgba::new(255, 255, 255, 255));

    let mut delaunay = Mesh::new();
    delaunay.insert(Point { x: 0, y: 0, c: Rgba::new(255, 0, 0, 255) });
    delaunay.insert(Point { x: 10, y: 0, c: Rgba::new(0, 255, 0, 255) });
    delaunay.insert(Point { x: 10, y: 10, c: Rgba::new(0, 0, 255, 255) });

    let triangles = delaunay.triangles();
    assert_eq!(triangles.len(), 1);
    for triangle in triangles.iter() {
        println!("Found triangle: {:?} -> {:?} -> {:?}", triangle[0], triangle[1], triangle[2]);
        assert_eq!(is_point_in_triangle(&point_in, triangle), true);
        assert_eq!(is_point_in_triangle(&point_out, triangle), false);
    }
}

#[test]
fn test_bounding_box_far_from_origin() {
    let triangle = [white(200_000, -300_000), white(150_000, -100_000), white(400_000, -200_000)];
    let bbox = BoundingBox::from_triangle(&triangle);
    assert_eq!(bbox, BoundingBox { xmin: 150_000, xmax: 400_000, ymin: -300_000, ymax: -100_000 });
}

#[test]
fn test_bounding_box_holds_every_vertex() {
    let triangle = [white(7, -3), white(-2, 11), white(4, 4)];
    let bbox = BoundingBox::from_triangle(&triangle);
    assert!(bbox.xmin <= bbox.xmax && bbox.ymin <= bbox.ymax);
    for p in triangle.iter() {
        assert!(bbox.xmin <= p.x && p.x <= bbox.xmax);
        assert!(bbox.ymin <= p.y && p.y <= bbox.ymax);
    }
    assert_eq!(bbox, BoundingBox { xmin: -2, xmax: 7, ymin: -3, ymax: 11 });
}

#[test]
fn test_bounding_box_of_flat_triangle() {
    let line = [white(1, 5), white(4, 5), white(9, 5)];
    let bbox = BoundingBox::from_triangle(&line);
    assert_eq!(bbox, BoundingBox { xmin: 1, xmax: 9, ymin: 5, ymax: 5 });
    let dot = [white(3, 3), white(3, 3), white(3, 3)];
    let bbox = BoundingBox::from_triangle(&dot);
    assert_eq!(bbox, BoundingBox { xmin: 3, xmax: 3, ymin: 3, ymax: 3 });
}

#[test]
fn test_is_ccw() {
    assert!(is_ccw(&white(0, 0), &white(10, 0), &white(0, 10)));
    assert!(!is_ccw(&white(0, 0), &white(0, 10), &white(10, 0)));
    // three points on one line count as counter-clockwise
    assert!(is_ccw(&white(0, 0), &white(5, 5), &white(10, 10)));
    // the extremes of the coordinate range do not overflow
    assert!(is_ccw(&white(i32::MIN, i32::MIN), &white(i32::MAX, i32::MIN), &white(i32::MIN, i32::MAX)));
    assert!(!is_ccw(&white(i32::MIN, i32::MIN), &white(i32::MIN, i32::MAX), &white(i32::MAX, i32::MIN)));
}

#[test]
fn test_point_in_triangle_strictly_inside_either_winding() {
    let triangle = [white(0, 0), white(10, 0), white(0, 10)];
    let reversed = [white(0, 10), white(10, 0), white(0, 0)];
    for p in [white(1, 1), white(3, 3), white(8, 1), white(1, 8)].iter() {
        assert!(is_point_in_triangle(p, &triangle));
        assert!(is_point_in_triangle(p, &reversed));
    }
    for p in [white(-1, 0), white(6, 6), white(11, 0), white(0, 11), white(5, -1)].iter() {
        assert!(!is_point_in_triangle(p, &triangle));
        assert!(!is_point_in_triangle(p, &reversed));
    }
}

#[test]
fn test_rim_belongs_to_the_triangle_in_either_winding() {
    let triangle = [white(0, 0), white(10, 0), white(0, 10)];
    let reversed = [white(0, 10), white(10, 0), white(0, 0)];
    let clockwise = [white(0, 0), white(0, 10), white(10, 0)];
    for t in [triangle, reversed, clockwise].iter() {
        // on the three edges
        assert!(is_point_in_triangle(&white(5, 0), t));
        assert!(is_point_in_triangle(&white(5, 5), t));
        assert!(is_point_in_triangle(&white(0, 5), t));
        assert!(is_point_in_triangle(&white(3, 7), t));
        // at the three vertices
        assert!(is_point_in_triangle(&white(0, 0), t));
        assert!(is_point_in_triangle(&white(10, 0), t));
        assert!(is_point_in_triangle(&white(0, 10), t));
        // on the lines through the edges, but off the triangle
        assert!(!is_point_in_triangle(&white(11, 0), t));
        assert!(!is_point_in_triangle(&white(-1, 0), t));
        assert!(!is_point_in_triangle(&white(0, 11), t));
        assert!(!is_point_in_triangle(&white(11, -1), t));
        assert!(!is_point_in_triangle(&white(-1, 11), t));
    }
}

#[test]
fn test_every_vertex_order_gives_the_same_answer() {
    let a = white(-3, 2);
    let b = white(8, -1);
    let c = white(4, 9);
    let orders = [[a, b, c], [b, c, a], [c, a, b], [c, b, a], [b, a, c], [a, c, b]];
    for y in -4..12 {
        for x in -6..12 {
            let p = white(x, y);
            let first = is_point_in_triangle(&p, &orders[0]);
            for t in orders.iter() {
                assert_eq!(is_point_in_triangle(&p, t), first, "at ({}, {})", x, y);
            }
        }
    }
}

#[test]
fn test_turn_of() {
    assert_eq!(turn_of(&white(0, 0), &white(10, 0), &white(0, 10)), 1);
    assert_eq!(turn_of(&white(0, 0), &white(0, 10), &white(10, 0)), -1);
    assert_eq!(turn_of(&white(0, 0), &white(5, 5), &white(10, 10)), 0);
    assert_eq!(turn_of(&white(i32::MIN, i32::MIN), &white(i32::MAX, i32::MIN), &white(i32::MIN, i32::MAX)), 1);
    assert_eq!(turn_of(&white(i32::MAX, i32::MAX), &white(i32::MAX, i32::MIN), &white(i32::MIN, i32::MAX)), -1);
}

#[test]
fn test_point_in_flat_triangle() {
    // every edge test of a triangle shrunk to one point is undecided
    let dot = [white(3, 3), white(3, 3), white(3, 3)];
    assert!(is_point_in_triangle(&white(100, -7), &dot));
    // a triangle stretched to a line holds the points of the line only
    let line = [white(0, 0), white(5, 5), white(10, 10)];
    assert!(is_point_in_triangle(&white(3, 3), &line));
    assert!(!is_point_in_triangle(&white(3, 4), &line));
    assert!(!is_point_in_triangle(&white(4, 3), &line));
}

#[test]
fn test_extend() {
    let mut bbox = BoundingBox { xmin: 0, xmax: 4, ymin: 0, ymax: 4 };
    bbox.extend(&white(2, 2));
    assert_eq!(bbox, BoundingBox { xmin: 0, xmax: 4, ymin: 0, ymax: 4 });
    bbox.extend(&white(-3, 9));
    assert_eq!(bbox, BoundingBox { xmin: -3, xmax: 4, ymin: 0, ymax: 9 });
    bbox.extend(&white(7, -1));
    assert_eq!(bbox, BoundingBox { xmin: -3, xmax: 7, ymin: -1, ymax: 9 });
}

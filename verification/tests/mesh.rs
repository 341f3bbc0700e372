use trimage::mesh::Mesh;
use trimage::point::{Point, Rgba, COORD_LIMIT};

fn red() -> Rgba {
    Rgba::new(255, 0, 0, 255)
}

fn blue() -> Rgba {
    Rgba::new(0, 0, 255, 255)
}

#[test]
fn test_new_mesh_is_empty() {
    let mesh = Mesh::new();
    assert_eq!(mesh.num_vertices(), 0);
    assert!(mesh.vertices().is_empty());
    assert!(mesh.triangles().is_empty());
}

#[test]
fn test_insert_keeps_the_order_of_arrival() {
    let mut mesh = Mesh::new();
    let points = [
        Point::new(700, 3, red()),
        Point::new(-5, 900, blue()),
        Point::new(40, 40, red()),
        Point::new(0, 0, blue()),
    ];
    for (n, p) in points.iter().enumerate() {
        mesh.insert(*p);
        assert_eq!(mesh.num_vertices(), n + 1);
        assert_eq!(mesh.vertices()[n], *p);
    }
    assert_eq!(mesh.vertices().as_slice(), &points[..]);
}

#[test]
fn test_insert_at_a_taken_position_keeps_the_point() {
    let mut mesh = Mesh::new();
    mesh.insert(Point::new(0, 0, red()));
    mesh.insert(Point::new(10, 0, red()));
    mesh.insert(Point::new(0, 10, red()));
    let triangles = mesh.triangles();
    mesh.insert(Point::new(10, 0, blue()));
    assert_eq!(mesh.num_vertices(), 3);
    assert_eq!(
        mesh.vertices().as_slice(),
        &[Point::new(0, 0, red()), Point::new(10, 0, red()), Point::new(0, 10, red())][..]
    );
    assert_eq!(mesh.triangles(), triangles);
    assert_eq!(triangles.len(), 1);
    // the same holds while all points lie on one line
    let mut mesh = Mesh::new();
    mesh.insert(Point::new(0, 0, red()));
    mesh.insert(Point::new(0, 0, blue()));
    mesh.insert(Point::new(5, 5, red()));
    mesh.insert(Point::new(5, 5, blue()));
    assert_eq!(mesh.vertices().as_slice(), &[Point::new(0, 0, red()), Point::new(5, 5, red())][..]);
}

#[test]
fn test_points_on_one_line_make_no_triangle() {
    let mut mesh = Mesh::new();
    mesh.insert(Point::new(0, 0, red()));
    assert!(mesh.triangles().is_empty());
    mesh.insert(Point::new(10, 10, red()));
    assert!(mesh.triangles().is_empty());
    mesh.insert(Point::new(20, 20, red()));
    mesh.insert(Point::new(5, 5, red()));
    assert_eq!(mesh.num_vertices(), 4);
    assert!(mesh.triangles().is_empty());
    mesh.insert(Point::new(0, 20, blue()));
    assert_eq!(mesh.triangles().len(), 3);
}

#[test]
fn test_triangles_carry_the_points_of_the_mesh() {
    let mut mesh = Mesh::new();
    let corners = [
        Point::new(0, 0, Rgba::new(1, 1, 1, 255)),
        Point::new(100, 0, Rgba::new(2, 2, 2, 255)),
        Point::new(0, 100, Rgba::new(3, 3, 3, 255)),
        Point::new(100, 100, Rgba::new(4, 4, 4, 255)),
    ];
    for p in corners.iter() {
        mesh.insert(*p);
    }
    let triangles = mesh.triangles();
    assert_eq!(triangles.len(), 2);
    for t in triangles.iter() {
        for corner in t.iter() {
            assert!(corners.contains(corner));
        }
        assert!(t[0] != t[1] && t[1] != t[2] && t[0] != t[2]);
    }
    mesh.insert(Point::new(50, 50, Rgba::new(5, 5, 5, 255)));
    assert_eq!(mesh.triangles().len(), 4);
    for t in mesh.triangles().iter() {
        assert!(t.contains(&Point::new(50, 50, Rgba::new(5, 5, 5, 255))));
    }
}

#[test]
fn test_mesh_at_the_coordinate_limit() {
    let mut mesh = Mesh::new();
    mesh.insert(Point::new(-COORD_LIMIT, -COORD_LIMIT, red()));
    mesh.insert(Point::new(COORD_LIMIT, COORD_LIMIT, red()));
    mesh.insert(Point::new(0, 0, red()));
    mesh.insert(Point::new(COORD_LIMIT, -COORD_LIMIT, blue()));
    mesh.insert(Point::new(-COORD_LIMIT, COORD_LIMIT, blue()));
    mesh.insert(Point::new(COORD_LIMIT - 1, COORD_LIMIT - 1, blue()));
    assert_eq!(mesh.num_vertices(), 6);
    assert!(mesh.triangles().len() >= 4);
}

/// A small generator of scattered numbers, so that the test needs no other.
fn scatter(state: &mut u64) -> i32 {
    *state = state.wrapping_mul(6364136223846793005).wrapping_add(1442695040888963407);
    ((*state >> 33) as i64 % (2 * COORD_LIMIT as i64 + 1) - COORD_LIMIT as i64) as i32
}

#[test]
fn test_many_points_far_apart() {
    let mut state = 42u64;
    let mut mesh = Mesh::new();
    let mut seen = std::collections::HashSet::new();
    for n in 0..1500 {
        let (x, y) = if n % 7 == 3 {
            // on one line with the point before, and sometimes the very same
            let v = scatter(&mut state);
            (v, v)
        } else {
            (scatter(&mut state), scatter(&mut state))
        };
        mesh.insert(Point::new(x, y, red()));
        seen.insert((x, y));
        if n % 5 == 0 {
            mesh.insert(Point::new(x, y, blue()));
        }
        assert_eq!(mesh.num_vertices(), seen.len());
    }
    let points = mesh.vertices().clone();
    let triangles = mesh.triangles();
    // a triangulation of n points with h of them on the hull has 2n - 2 - h
    // triangles
    assert!(triangles.len() >= points.len() - 2);
    assert!(triangles.len() <= 2 * points.len() - 5);
    for t in triangles.iter() {
        for corner in t.iter() {
            assert!(seen.contains(&(corner.x, corner.y)));
        }
    }
}

#[test]
fn test_many_points_close_together() {
    let mut state = 7u64;
    let mut mesh = Mesh::new();
    let mut seen = std::collections::HashSet::new();
    for _ in 0..3000 {
        let x = scatter(&mut state).rem_euclid(40);
        let y = scatter(&mut state).rem_euclid(40);
        mesh.insert(Point::new(x, y, red()));
        seen.insert((x, y));
        assert_eq!(mesh.num_vertices(), seen.len());
    }
    assert!(mesh.triangles().len() >= seen.len() - 2);
}

use vstd::prelude::*;
use crate::point::Point;

verus! {

/// The smallest of three coordinates.
pub open spec fn min3(a: int, b: int, c: int) -> int {
    if a <= b && a <= c {
        a
    } else if b <= c {
        b
    } else {
        c
    }
}

/// The largest of three coordinates.
pub open spec fn max3(a: int, b: int, c: int) -> int {
    if a >= b && a >= c {
        a
    } else if b >= c {
        b
    } else {
        c
    }
}

/// An axis-aligned rectangle, in coordinate units.
#[derive(Clone, Copy, Debug, PartialEq, Eq, Structural)]
pub struct BoundingBox {
    pub xmin: i32,
    pub xmax: i32,
    pub ymin: i32,
    pub ymax: i32,
}

impl BoundingBox {
    /// Whether `p` lies in the rectangle, its border included.
    pub open spec fn contains(self, p: Point) -> bool {
        &&& self.xmin <= p.x <= self.xmax
        &&& self.ymin <= p.y <= self.ymax
    }

    /// The smallest rectangle that holds the three vertices of `triangle`.
    pub open spec fn of(triangle: [Point; 3]) -> BoundingBox {
        BoundingBox {
            xmin: min3(triangle[0].x as int, triangle[1].x as int, triangle[2].x as int) as i32,
            xmax: max3(triangle[0].x as int, triangle[1].x as int, triangle[2].x as int) as i32,
            ymin: min3(triangle[0].y as int, triangle[1].y as int, triangle[2].y as int) as i32,
            ymax: max3(triangle[0].y as int, triangle[1].y as int, triangle[2].y as int) as i32,
        }
    }

    /// Reduces the vertices of `triangle` to their smallest and largest
    /// coordinates. A triangle without area still has a box, of no width
    /// or no height.
    pub fn from_triangle(triangle: &[Point; 3]) -> (bbox: BoundingBox)
        ensures
            bbox == BoundingBox::of(*triangle),
            bbox.xmin <= bbox.xmax,
            bbox.ymin <= bbox.ymax,
            bbox.contains(triangle[0]),
            bbox.contains(triangle[1]),
            bbox.contains(triangle[2]),
    {
        let first = &triangle[0];
        let mut bbox = BoundingBox { xmin: first.x, xmax: first.x, ymin: first.y, ymax: first.y };
        bbox.extend(&triangle[1]);
        bbox.extend(&triangle[2]);
        bbox
    }

    /// Widens the box just enough to hold `point`.
    pub fn extend(&mut self, point: &Point)
        ensures
            final(self).xmin == (if point.x < old(self).xmin { point.x } else { old(self).xmin }),
            final(self).xmax == (if point.x > old(self).xmax { point.x } else { old(self).xmax }),
            final(self).ymin == (if point.y < old(self).ymin { point.y } else { old(self).ymin }),
            final(self).ymax == (if point.y > old(self).ymax { point.y } else { old(self).ymax }),
    {
        if point.x < self.xmin {
            self.xmin = point.x;
        }
        if point.x > self.xmax {
            self.xmax = point.x;
        }
        if point.y < self.ymin {
            self.ymin = point.y;
        }
        if point.y > self.ymax {
            self.ymax = point.y;
        }
    }
}

/// The box of a triangle is not inside out and holds the three vertices.
pub proof fn lemma_box_holds_vertices(triangle: [Point; 3])
    ensures
        BoundingBox::of(triangle).xmin <= BoundingBox::of(triangle).xmax,
        BoundingBox::of(triangle).ymin <= BoundingBox::of(triangle).ymax,
        BoundingBox::of(triangle).contains(triangle[0]),
        BoundingBox::of(triangle).contains(triangle[1]),
        BoundingBox::of(triangle).contains(triangle[2]),
{
}

} // verus!

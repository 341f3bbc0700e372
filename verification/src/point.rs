use vstd::prelude::*;

verus! {

/// Number of coordinate units that make up one pixel.
pub const UNITS_PER_PIXEL: i32 = 256;

/// Largest absolute coordinate that a mesh vertex may have.
pub const COORD_LIMIT: i32 = 0x2000_0000;

/// Largest pixel index whose position fits below [`COORD_LIMIT`].
pub const MAX_PIXEL: u32 = 0x0020_0000;

/// An 8-bit-per-channel colour with alpha.
#[derive(Clone, Copy, Debug, PartialEq, Eq, Structural)]
pub struct Rgba {
    pub r: u8,
    pub g: u8,
    pub b: u8,
    pub a: u8,
}

impl Rgba {
    pub fn new(r: u8, g: u8, b: u8, a: u8) -> (c: Rgba)
        ensures
            c == (Rgba { r, g, b, a }),
    {
        Rgba { r, g, b, a }
    }

    /// Opaque white, the colour of points that carry no sample.
    pub open spec fn white() -> Rgba {
        Rgba { r: 255, g: 255, b: 255, a: 255 }
    }

    /// The fully transparent colour of a pixel that was never painted.
    pub open spec fn clear() -> Rgba {
        Rgba { r: 0, g: 0, b: 0, a: 0 }
    }
}

/// A coloured position on the image plane, in coordinate units.
#[derive(Clone, Copy, Debug, PartialEq, Eq, Structural)]
pub struct Point {
    pub x: i32,
    pub y: i32,
    pub c: Rgba,
}

impl Point {
    pub fn new(x: i32, y: i32, c: Rgba) -> (p: Point)
        ensures
            p == (Point { x, y, c }),
    {
        Point { x, y, c }
    }

    /// Number of coordinates of a point.
    pub fn dimensions() -> (n: usize)
        ensures
            n == 2,
    {
        2
    }

    /// The white point whose coordinates all equal `value`.
    pub fn from_value(value: i32) -> (p: Point)
        ensures
            p == (Point { x: value, y: value, c: Rgba::white() }),
    {
        Point { x: value, y: value, c: Rgba { r: 255, g: 255, b: 255, a: 255 } }
    }

    /// The coordinate that `nth` and `nth_mut` select: `y` for index 1,
    /// `x` for every other index.
    pub open spec fn coordinate(self, index: usize) -> i32 {
        if index == 1 {
            self.y
        } else {
            self.x
        }
    }

    pub fn nth(&self, index: usize) -> (r: &i32)
        ensures
            *r == self.coordinate(index),
    {
        match index {
            0 => &self.x,
            1 => &self.y,
            _ => &self.x,
        }
    }

    pub fn nth_mut(&mut self, index: usize) -> (r: &mut i32)
        ensures
            *r == old(self).coordinate(index),
            index == 1 ==> *final(self) == (Point { y: *final(r), ..*old(self) }),
            index != 1 ==> *final(self) == (Point { x: *final(r), ..*old(self) }),
    {
        match index {
            0 => &mut self.x,
            1 => &mut self.y,
            _ => &mut self.x,
        }
    }

    /// Whether both coordinates lie within [`COORD_LIMIT`] of the origin.
    pub open spec fn within_limit(self) -> bool {
        &&& -COORD_LIMIT <= self.x <= COORD_LIMIT
        &&& -COORD_LIMIT <= self.y <= COORD_LIMIT
    }

    /// Executable form of [`Point::within_limit`].
    pub fn is_within_limit(&self) -> (r: bool)
        ensures
            r == self.within_limit(),
    {
        -COORD_LIMIT <= self.x && self.x <= COORD_LIMIT && -COORD_LIMIT <= self.y && self.y
            <= COORD_LIMIT
    }

    /// The position of the corner of pixel `(col, row)`.
    pub open spec fn pixel_corner(col: int, row: int, c: Rgba) -> Point {
        Point { x: (col * UNITS_PER_PIXEL) as i32, y: (row * UNITS_PER_PIXEL) as i32, c }
    }

    /// The point at the corner of pixel `(col, row)`, for a pixel whose
    /// position fits in a coordinate.
    pub fn at_pixel(col: u32, row: u32, c: Rgba) -> (p: Point)
        requires
            col * UNITS_PER_PIXEL <= i32::MAX,
            row * UNITS_PER_PIXEL <= i32::MAX,
        ensures
            p == Point::pixel_corner(col as int, row as int, c),
            p.x == col * UNITS_PER_PIXEL,
            p.y == row * UNITS_PER_PIXEL,
            col <= MAX_PIXEL && row <= MAX_PIXEL ==> p.within_limit(),
    {
        let x: i32 = (col as i32) * UNITS_PER_PIXEL;
        let y: i32 = (row as i32) * UNITS_PER_PIXEL;
        Point { x, y, c }
    }
}

} // verus!

use vstd::prelude::*;
use crate::point::{Rgba, UNITS_PER_PIXEL};

verus! {

/// A dense grid of pixels, stored row by row.
pub struct Raster {
    width: u32,
    height: u32,
    pixels: Vec<Rgba>,
}

/// Position of pixel `(x, y)` in a row-by-row sequence of rows `width` wide.
pub open spec fn pixel_index(width: int, x: int, y: int) -> int {
    y * width + x
}

/// A pixel inside a grid has its index inside the grid's sequence.
pub proof fn lemma_pixel_index_in_bounds(width: int, height: int, x: int, y: int)
    requires
        0 <= x < width,
        0 <= y < height,
    ensures
        0 <= pixel_index(width, x, y) < width * height,
        pixel_index(width, x, y) % width == x,
        pixel_index(width, x, y) / width == y,
{
    assert(0 <= y * width && y * width + width <= height * width && height * width == width
        * height) by (nonlinear_arith)
        requires
            0 <= y < height,
            0 < width,
    ;
    vstd::arithmetic::div_mod::lemma_fundamental_div_mod_converse(y * width + x, width, y, x);
}

/// The pixel column (or row) under a coordinate, of `size` columns (or
/// rows): the coordinate in whole pixels, rounded down, and held inside
/// the grid.
pub open spec fn pixel_under(coord: int, size: int) -> int {
    if coord < 0 {
        0
    } else if coord / (UNITS_PER_PIXEL as int) >= size {
        size - 1
    } else {
        coord / (UNITS_PER_PIXEL as int)
    }
}

/// Computes the pixel column (or row) under a coordinate.
pub fn pixel_index_under(coord: i32, size: u32) -> (i: u32)
    requires
        size > 0,
    ensures
        i == pixel_under(coord as int, size as int),
        i < size,
{
    if coord < 0 {
        0
    } else {
        let whole: u32 = (coord / UNITS_PER_PIXEL) as u32;
        if whole >= size {
            size - 1
        } else {
            whole
        }
    }
}

/// An index inside a grid's sequence names a pixel inside the grid.
pub proof fn lemma_index_names_pixel(width: int, height: int, i: int)
    requires
        0 <= i < width * height,
        0 <= width,
        0 <= height,
    ensures
        0 <= i % width < width,
        0 <= i / width < height,
        pixel_index(width, i % width, i / width) == i,
{
    assert(width > 0) by (nonlinear_arith)
        requires
            0 <= i < width * height,
            0 <= width,
            0 <= height,
    ;
    vstd::arithmetic::div_mod::lemma_fundamental_div_mod(i, width);
    vstd::arithmetic::div_mod::lemma_mod_bound(i, width);
    let q = i / width;
    assert(0 <= q < height) by (nonlinear_arith)
        requires
            0 <= i < width * height,
            i == width * q + (i % width),
            0 <= i % width < width,
            0 < width,
    ;
    assert(width * q == q * width) by (nonlinear_arith);
}

impl Raster {
    #[verifier::type_invariant]
    spec fn well_formed(self) -> bool {
        self.pixels@.len() == self.width * self.height
    }

    /// Number of pixels in a row.
    pub closed spec fn spec_width(&self) -> u32 {
        self.width
    }

    /// Number of rows.
    pub closed spec fn spec_height(&self) -> u32 {
        self.height
    }

    /// The pixels, row by row.
    pub closed spec fn view(&self) -> Seq<Rgba> {
        self.pixels@
    }

    /// The pixel in column `x` of row `y`.
    pub open spec fn pixel(&self, x: int, y: int) -> Rgba {
        self@[pixel_index(self.spec_width() as int, x, y)]
    }

    /// Whether the grid holds no pixel at all.
    pub open spec fn spec_is_empty(&self) -> bool {
        self.spec_width() == 0 || self.spec_height() == 0
    }

    #[verifier::when_used_as_spec(spec_width)]
    pub fn width(&self) -> (w: u32)
        ensures
            w == self.spec_width(),
            self@.len() == self.spec_width() * self.spec_height(),
    {
        proof {
            use_type_invariant(self);
        }
        self.width
    }

    #[verifier::when_used_as_spec(spec_height)]
    pub fn height(&self) -> (h: u32)
        ensures
            h == self.spec_height(),
            self@.len() == self.spec_width() * self.spec_height(),
    {
        proof {
            use_type_invariant(self);
        }
        self.height
    }

    /// Width and height, in this order.
    pub fn dimensions(&self) -> (d: (u32, u32))
        ensures
            d.0 == self.spec_width(),
            d.1 == self.spec_height(),
            self@.len() == self.spec_width() * self.spec_height(),
            self.spec_width() * self.spec_height() <= usize::MAX,
    {
        proof {
            use_type_invariant(self);
        }
        let n: usize = self.pixels.len();
        (self.width, self.height)
    }

    #[verifier::when_used_as_spec(spec_is_empty)]
    pub fn is_empty(&self) -> (e: bool)
        ensures
            e == self.spec_is_empty(),
    {
        self.width == 0 || self.height == 0
    }

    /// A grid of the given size in which every pixel has the colour `fill`.
    pub fn filled(width: u32, height: u32, fill: Rgba) -> (img: Raster)
        requires
            width * height <= usize::MAX,
        ensures
            img.spec_width() == width,
            img.spec_height() == height,
            img@ == Seq::new((width * height) as nat, |i: int| fill),
    {
        let n: usize = (width as usize) * (height as usize);
        let mut pixels: Vec<Rgba> = Vec::new();
        let mut i: usize = 0;
        while i < n
            invariant
                i <= n,
                pixels@ == Seq::new(i as nat, |k: int| fill),
            decreases n - i,
        {
            pixels.push(fill);
            i += 1;
            assert(pixels@ =~= Seq::new(i as nat, |k: int| fill));
        }
        Raster { width, height, pixels }
    }

    /// A grid of the given size in which no pixel has been painted: every
    /// pixel is transparent black.
    pub fn new(width: u32, height: u32) -> (img: Raster)
        requires
            width * height <= usize::MAX,
        ensures
            img.spec_width() == width,
            img.spec_height() == height,
            img@ == Seq::new((width * height) as nat, |i: int| Rgba::clear()),
    {
        Raster::filled(width, height, Rgba { r: 0, g: 0, b: 0, a: 0 })
    }

    /// The grid that holds `pixels` as rows of `width` pixels, if there are
    /// exactly `width * height` of them.
    pub fn from_pixels(width: u32, height: u32, pixels: Vec<Rgba>) -> (r: Option<Raster>)
        ensures
            r.is_some() <==> pixels@.len() == width * height,
            r.is_some() ==> {
                &&& r.unwrap().spec_width() == width
                &&& r.unwrap().spec_height() == height
                &&& r.unwrap()@ == pixels@
            },
    {
        assert(width * height <= 0xffff_ffff * 0xffff_ffff) by (nonlinear_arith)
            requires
                0 <= width <= 0xffff_ffff,
                0 <= height <= 0xffff_ffff,
        ;
        let n: u64 = (width as u64) * (height as u64);
        if pixels.len() as u64 == n {
            Some(Raster { width, height, pixels })
        } else {
            None
        }
    }

    /// The pixels, row by row.
    pub fn pixels(&self) -> (p: &Vec<Rgba>)
        ensures
            p@ == self@,
            self@.len() == self.spec_width() * self.spec_height(),
    {
        proof {
            use_type_invariant(self);
        }
        &self.pixels
    }

    /// Reads the pixel in column `x` of row `y`.
    pub fn get_pixel(&self, x: u32, y: u32) -> (c: Rgba)
        requires
            x < self.spec_width(),
            y < self.spec_height(),
        ensures
            c == self.pixel(x as int, y as int),
    {
        proof {
            use_type_invariant(self);
            lemma_pixel_index_in_bounds(self.width as int, self.height as int, x as int, y as int);
        }
        let n: usize = self.pixels.len();
        assert(y * self.width + x < n);
        let i: usize = (y as usize) * (self.width as usize) + (x as usize);
        self.pixels[i]
    }

    /// The colour of the image at the position `(x, y)`, given in
    /// coordinate units: that of the pixel under it, or of the nearest
    /// pixel for a position outside the grid.
    pub open spec fn sample(&self, x: int, y: int) -> Rgba {
        self.pixel(
            pixel_under(x, self.spec_width() as int),
            pixel_under(y, self.spec_height() as int),
        )
    }

    /// Reads the colour of the image at the position `(x, y)`.
    pub fn sample_at(&self, x: i32, y: i32) -> (c: Rgba)
        requires
            !self.spec_is_empty(),
        ensures
            c == self.sample(x as int, y as int),
    {
        let col: u32 = pixel_index_under(x, self.width());
        let row: u32 = pixel_index_under(y, self.height());
        self.get_pixel(col, row)
    }

    /// Paints the pixel in column `x` of row `y`; no other pixel changes.
    pub fn put_pixel(&mut self, x: u32, y: u32, c: Rgba)
        requires
            x < old(self).spec_width(),
            y < old(self).spec_height(),
        ensures
            final(self).spec_width() == old(self).spec_width(),
            final(self).spec_height() == old(self).spec_height(),
            final(self)@ == old(self)@.update(
                pixel_index(old(self).spec_width() as int, x as int, y as int),
                c,
            ),
    {
        proof {
            use_type_invariant(&*self);
            lemma_pixel_index_in_bounds(self.width as int, self.height as int, x as int, y as int);
        }
        let n: usize = self.pixels.len();
        assert(y * self.width + x < n);
        let i: usize = (y as usize) * (self.width as usize) + (x as usize);
        self.pixels[i] = c;
    }
}

} // verus!

//! The pixel grid: a width, a height, and one colour per coordinate, row by
//! row.

use crate::color::{closest_match, Color, Rgb};
use vstd::prelude::*;

verus! {

/// The coordinate of the pixel at place `i` of a row-major scan of a grid
/// that is `width` wide.
pub open spec fn coord_of(i: int, width: nat) -> (u32, u32) {
    if width == 0 {
        (0u32, 0u32)
    } else {
        ((i % width as int) as u32, (i / width as int) as u32)
    }
}

/// Every colour of `pixels` replaced by the RGB value of the reference
/// colour nearest to it.
pub open spec fn vanilla_pixels(pixels: Seq<Rgb>) -> Seq<Rgb> {
    Seq::new(pixels.len(), |i: int| closest_match(pixels[i]).rgb())
}

/// A grid of pixels. It holds exactly `width * height` colours, the rows
/// one after the other.
pub struct PixelGrid {
    width: u32,
    height: u32,
    pixels: Vec<Rgb>,
}

impl PixelGrid {
    #[verifier::type_invariant]
    spec fn well_formed(self) -> bool {
        self.pixels@.len() == self.width * self.height
    }

    /// The width of the grid.
    pub closed spec fn spec_width(&self) -> u32 {
        self.width
    }

    /// The height of the grid.
    pub closed spec fn spec_height(&self) -> u32 {
        self.height
    }

    /// The colours of the grid, row by row.
    pub closed spec fn view(&self) -> Seq<Rgb> {
        self.pixels@
    }

    /// A grid of the given size over `pixels`, which are taken row by row;
    /// none if their number is not `width * height`.
    pub fn new(width: u32, height: u32, pixels: Vec<Rgb>) -> (grid: Option<PixelGrid>)
        ensures
            grid is Some <==> pixels@.len() == width * height,
            grid matches Some(g) ==> g.spec_width() == width && g.spec_height() == height && g@
                == pixels@,
    {
        assert(width * height <= 0xFFFF_FFFE_0000_0001) by (nonlinear_arith)
            requires
                width <= 0xFFFF_FFFF,
                height <= 0xFFFF_FFFF,
        ;
        let wanted: u64 = (width as u64) * (height as u64);
        if pixels.len() as u64 == wanted {
            Some(PixelGrid { width, height, pixels })
        } else {
            None
        }
    }

    #[verifier::when_used_as_spec(spec_width)]
    pub fn width(&self) -> (w: u32)
        ensures
            w == self.spec_width(),
    {
        self.width
    }

    #[verifier::when_used_as_spec(spec_height)]
    pub fn height(&self) -> (h: u32)
        ensures
            h == self.spec_height(),
    {
        self.height
    }

    /// The colours of the grid, row by row.
    pub fn pixels(&self) -> (pixels: &Vec<Rgb>)
        ensures
            pixels@ == self@,
            pixels@.len() == self.spec_width() * self.spec_height(),
    {
        proof {
            use_type_invariant(self);
        }
        &self.pixels
    }

    /// The colour at column `x` of row `y`; none outside the grid.
    pub fn get(&self, x: u32, y: u32) -> (pixel: Option<Rgb>)
        ensures
            pixel == if x < self.spec_width() && y < self.spec_height() {
                Some(self@[y * self.spec_width() + x])
            } else {
                None
            },
    {
        proof {
            use_type_invariant(self);
        }
        if x < self.width && y < self.height {
            assert(0 <= y * self.width && y * self.width + x < self.width * self.height)
                by (nonlinear_arith)
                requires
                    0 <= x < self.width,
                    0 <= y < self.height,
            ;
            let count: usize = self.pixels.len();
            assert(y * self.width + x < count);
            let at: usize = (y as usize) * (self.width as usize) + (x as usize);
            Some(self.pixels[at])
        } else {
            None
        }
    }

    /// The grid with every colour replaced by the RGB value of the
    /// reference colour nearest to it.
    pub fn to_vanilla(&self) -> (grid: PixelGrid)
        ensures
            grid.spec_width() == self.spec_width(),
            grid.spec_height() == self.spec_height(),
            grid@ == vanilla_pixels(self@),
    {
        proof {
            use_type_invariant(self);
        }
        let mut resolved: Vec<Rgb> = Vec::new();
        let mut i: usize = 0;
        while i < self.pixels.len()
            invariant
                i <= self.pixels.len(),
                resolved@ == vanilla_pixels(self.pixels@.take(i as int)),
            decreases self.pixels.len() - i,
        {
            let nearest: Color = Color::get_closest_match(self.pixels[i]);
            resolved.push(nearest.get_rgb());
            assert(resolved@ =~= vanilla_pixels(self.pixels@.take(i + 1)));
            i = i + 1;
        }
        assert(self.pixels@.take(i as int) =~= self.pixels@);
        PixelGrid { width: self.width, height: self.height, pixels: resolved }
    }
}

} // verus!

//! A raster buffer: one packed RGBA pixel per cell, row after row.
//!
//! Growth never shrinks and never moves a pixel: the old content keeps its
//! coordinates and newly exposed cells are blank.
use vstd::prelude::*;

verus! {

/// A width x height pixel buffer. A pixel is one RGBA value packed into a
/// `u32`; `pixels` stores row `0` first.
pub struct Raster {
    pub width: u32,
    pub height: u32,
    pub pixels: Vec<u32>,
}

impl Raster {
    /// The buffer holds exactly one pixel per coordinate.
    pub open spec fn wf(self) -> bool {
        self.pixels@.len() == self.width as int * self.height as int
    }

    /// The pixel at a coordinate.
    pub open spec fn pixel(self, x: int, y: int) -> u32 {
        self.pixels@[y * self.width as int + x]
    }

    /// A coordinate inside the buffer.
    pub open spec fn in_bounds(self, x: int, y: int) -> bool {
        0 <= x < self.width as int && 0 <= y < self.height as int
    }

    /// A blank buffer: every pixel zero.
    pub fn blank(width: u32, height: u32) -> (r: Raster)
        requires
            width as int * height as int <= usize::MAX as int,
        ensures
            r.wf(),
            r.width == width,
            r.height == height,
            forall|x: int, y: int| r.in_bounds(x, y) ==> r.pixel(x, y) == 0,
    {
        let n: usize = (width as usize) * (height as usize);
        let mut pixels: Vec<u32> = Vec::new();
        let mut i: usize = 0;
        while i < n
            invariant
                i <= n,
                pixels@.len() == i,
                forall|k: int| 0 <= k < i ==> pixels@[k] == 0,
            decreases n - i,
        {
            pixels.push(0);
            i = i + 1;
        }
        let r = Raster { width, height, pixels };
        proof {
            assert forall|x: int, y: int| r.in_bounds(x, y) implies r.pixel(x, y) == 0 by {
                lemma_row_major(x, y, width as int, height as int);
            }
        }
        r
    }

    /// Reads one pixel.
    pub fn get(&self, x: u32, y: u32) -> (v: u32)
        requires
            self.wf(),
            self.in_bounds(x as int, y as int),
        ensures
            v == self.pixel(x as int, y as int),
    {
        let n: usize = self.pixels.len();
        proof {
            lemma_row_major(x as int, y as int, self.width as int, self.height as int);
            assert((y as int) * (self.width as int) + (x as int) < n as int);
        }
        let i: usize = (y as usize) * (self.width as usize) + (x as usize);
        self.pixels[i]
    }

    /// Overwrites one pixel; every other pixel keeps its value.
    pub fn set(&mut self, x: u32, y: u32, v: u32)
        requires
            old(self).wf(),
            old(self).in_bounds(x as int, y as int),
        ensures
            final(self).wf(),
            final(self).width == old(self).width,
            final(self).height == old(self).height,
            final(self).pixel(x as int, y as int) == v,
            forall|a: int, b: int|
                old(self).in_bounds(a, b) && !(a == x as int && b == y as int) ==> final(self).pixel(a, b) == old(self).pixel(a, b),
    {
        let n: usize = self.pixels.len();
        proof {
            lemma_row_major(x as int, y as int, self.width as int, self.height as int);
            assert((y as int) * (self.width as int) + (x as int) < n as int);
        }
        let i: usize = (y as usize) * (self.width as usize) + (x as usize);
        self.pixels[i] = v;
        proof {
            let w = self.width as int;
            let h = self.height as int;
            assert forall|a: int, b: int|
                old(self).in_bounds(a, b) && !(a == x as int && b == y as int) implies final(self).pixel(a, b) == old(self).pixel(a, b) by {
                lemma_row_major(a, b, w, h);
                lemma_row_major_injective(a, b, x as int, y as int, w);
            }
        }
    }

    /// The same content in a larger buffer: every old pixel keeps its
    /// coordinate and value, and every newly exposed cell is blank.
    pub fn grown(&self, width: u32, height: u32) -> (r: Raster)
        requires
            self.wf(),
            self.width <= width,
            self.height <= height,
            width as int * height as int <= usize::MAX as int,
        ensures
            r.wf(),
            r.width == width,
            r.height == height,
            forall|x: int, y: int| self.in_bounds(x, y) ==> r.pixel(x, y) == self.pixel(x, y),
            forall|x: int, y: int|
                r.in_bounds(x, y) && !self.in_bounds(x, y) ==> r.pixel(x, y) == 0,
    {
        let mut r = Raster::blank(width, height);
        let mut y: u32 = 0;
        while y < self.height
            invariant
                y <= self.height,
                self.wf(),
                r.wf(),
                r.width == width,
                r.height == height,
                self.width <= width,
                self.height <= height,
                forall|a: int, b: int|
                    self.in_bounds(a, b) && b < y as int ==> r.pixel(a, b) == self.pixel(a, b),
                forall|a: int, b: int|
                    r.in_bounds(a, b) && !(self.in_bounds(a, b) && b < y as int) ==> r.pixel(a, b)
                        == 0,
            decreases self.height - y,
        {
            let mut x: u32 = 0;
            while x < self.width
                invariant
                    x <= self.width,
                    y < self.height,
                    self.wf(),
                    r.wf(),
                    r.width == width,
                    r.height == height,
                    self.width <= width,
                    self.height <= height,
                    forall|a: int, b: int|
                        self.in_bounds(a, b) && b < y as int ==> r.pixel(a, b) == self.pixel(a, b),
                    forall|a: int|
                        0 <= a < x as int ==> r.pixel(a, y as int) == self.pixel(a, y as int),
                    forall|a: int, b: int|
                        r.in_bounds(a, b) && !(self.in_bounds(a, b) && (b < y as int || (b
                            == y as int && a < x as int))) ==> r.pixel(a, b) == 0,
                decreases self.width - x,
            {
                let v = self.get(x, y);
                r.set(x, y, v);
                x = x + 1;
            }
            y = y + 1;
        }
        r
    }
}

/// A row-major index stays inside the buffer.
proof fn lemma_row_major(x: int, y: int, w: int, h: int)
    requires
        0 <= x < w,
        0 <= y < h,
    ensures
        0 <= y * w + x < w * h,
{
    assert(y * w + x < w * h) by (nonlinear_arith)
        requires
            0 <= x < w,
            0 <= y < h,
    ;
    assert(y * w >= 0) by (nonlinear_arith)
        requires
            0 <= y,
            0 <= w,
    ;
}

/// Distinct coordinates have distinct row-major indices.
proof fn lemma_row_major_injective(a: int, b: int, x: int, y: int, w: int)
    requires
        0 <= a < w,
        0 <= x < w,
        0 <= b,
        0 <= y,
        !(a == x && b == y),
    ensures
        b * w + a != y * w + x,
{
    if b == y {
    } else {
        assert(b * w + a != y * w + x) by (nonlinear_arith)
            requires
                0 <= a < w,
                0 <= x < w,
                b != y,
        ;
    }
}

} // verus!

use vstd::prelude::*;
use vstd::arithmetic::div_mod::lemma_fundamental_div_mod;

verus! {

/// One RGBA pixel, eight bits per channel.
#[derive(Clone, Copy, PartialEq, Eq, Structural, Debug)]
pub struct Rgba {
    pub r: u8,
    pub g: u8,
    pub b: u8,
    pub a: u8,
}

/// The pixel every canvas starts out filled with.
pub open spec fn blank_pixel() -> Rgba {
    Rgba { r: 0, g: 0, b: 0, a: 0 }
}

/// A fixed-size RGBA raster, stored row-major.  The encoder passes draw into
/// disjoint row ranges of one canvas; every write is bounds-checked.
#[derive(Debug, Clone)]
pub struct Canvas {
    pub width: u32,
    pub height: u32,
    pub pixels: Vec<Rgba>,
}

impl Canvas {
    /// The raster holds exactly `width * height` pixels, and that count fits
    /// in a `u32` so that linear pixel addresses stay small.
    pub open spec fn wf(&self) -> bool {
        &&& self.pixels@.len() == self.width as nat * self.height as nat
        &&& self.width as nat * self.height as nat <= u32::MAX as nat
    }

    /// The pixel at column `x`, row `y`.
    pub open spec fn pix(&self, x: int, y: int) -> Rgba
        recommends
            0 <= x < self.width,
            0 <= y < self.height,
    {
        self.pixels@[y * self.width as int + x]
    }

    /// A blank (fully transparent black) canvas, as the original raster
    /// library hands one out.
    pub fn new(width: u32, height: u32) -> (c: Canvas)
        requires
            width as nat * height as nat <= u32::MAX as nat,
        ensures
            c.wf(),
            c.width == width,
            c.height == height,
            forall|i: int| 0 <= i < c.pixels@.len() ==> c.pixels@[i] == blank_pixel(),
    {
        let n: u64 = width as u64 * height as u64;
        let mut pixels: Vec<Rgba> = Vec::new();
        while (pixels.len() as u64) < n
            invariant
                pixels@.len() <= n,
                n == width as nat * height as nat,
                n <= u32::MAX,
                forall|i: int| 0 <= i < pixels@.len() ==> pixels@[i] == blank_pixel(),
            decreases n - pixels@.len(),
        {
            pixels.push(Rgba { r: 0, g: 0, b: 0, a: 0 });
        }
        Canvas { width, height, pixels }
    }

    /// Write one pixel at column `x`, row `y`.
    pub fn put_pixel(&mut self, x: u32, y: u32, p: Rgba)
        requires
            old(self).wf(),
            x < old(self).width,
            y < old(self).height,
        ensures
            final(self).wf(),
            final(self).width == old(self).width,
            final(self).height == old(self).height,
            final(self).pixels@ == old(self).pixels@.update(
                y as int * old(self).width as int + x as int,
                p,
            ),
    {
        proof {
            assert((y as int * self.width as int + x as int) < self.width as int
                * self.height as int) by (nonlinear_arith)
                requires
                    x < self.width,
                    y < self.height,
            ;
        }
        let idx: usize = y as usize * self.width as usize + x as usize;
        self.pixels.set(idx, p);
    }

    /// Read one pixel at column `x`, row `y`.
    pub fn get_pixel(&self, x: u32, y: u32) -> (p: Rgba)
        requires
            self.wf(),
            x < self.width,
            y < self.height,
        ensures
            p == self.pix(x as int, y as int),
    {
        proof {
            assert((y as int * self.width as int + x as int) < self.width as int
                * self.height as int) by (nonlinear_arith)
                requires
                    x < self.width,
                    y < self.height,
            ;
        }
        let idx: usize = y as usize * self.width as usize + x as usize;
        self.pixels[idx]
    }

    /// Write the pixel `k` positions into the section that starts at row
    /// `base_row`, wrapping at the canvas width.  In the flat row-major view
    /// this is the single linear address `base_row * width + k`.
    pub fn put_at(&mut self, base_row: u32, k: u32, p: Rgba)
        requires
            old(self).wf(),
            old(self).width > 0,
            (base_row as nat * old(self).width as nat + k as nat)
                < old(self).width as nat * old(self).height as nat,
        ensures
            final(self).wf(),
            final(self).width == old(self).width,
            final(self).height == old(self).height,
            final(self).pixels@ == old(self).pixels@.update(
                base_row as int * old(self).width as int + k as int,
                p,
            ),
    {
        let w: u32 = self.width;
        let x: u32 = k % w;
        let y64: u64 = k as u64 / w as u64 + base_row as u64;
        proof {
            lemma_fundamental_div_mod(k as int, w as int);
            // y64 * w + x == base_row * w + k, and that address is below
            // width * height, so y64 < height.
            assert((k as int / w as int + base_row as int) * w as int + (k as int % w as int)
                == base_row as int * w as int + k as int) by (nonlinear_arith)
                requires
                    w > 0,
                    k as int == w as int * (k as int / w as int) + (k as int % w as int),
            ;
            assert((k as int / w as int + base_row as int) < self.height as int)
                by (nonlinear_arith)
                requires
                    w > 0,
                    0 <= k as int % w as int,
                    (k as int / w as int + base_row as int) * w as int + (k as int % w as int)
                        == base_row as int * w as int + k as int,
                    (base_row as int * w as int + k as int) < w as int * self.height as int,
                    k as int / w as int >= 0,
            ;
        }
        let y: u32 = y64 as u32;
        self.put_pixel(x, y, p);
    }
}

} // verus!

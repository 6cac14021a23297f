use vstd::prelude::*;
use vstd::arithmetic::div_mod::lemma_fundamental_div_mod;
use crate::canvas::{Canvas, Rgba};
use crate::convert::texture::property::unchanged_outside;

verus! {

/// One source texture, copied verbatim into its reserved block of rows.
///
/// Format contract for the vertical orientation: with the UV-flip flag set
/// the rows are copied in natural order; with it unset they are copied
/// vertically mirrored (source row `y` lands on block row `height - 1 - y`),
/// compensating for the coordinate-system difference between the mesh's UV
/// convention and the consumer's sampling convention.
pub struct Texture<'a> {
    pub image: &'a Canvas,
    pub flip: bool,
}

/// The `k`-th pixel of a blitted block: column `k % width` of the source,
/// from row `k / width` when flipped, else from the mirrored row.
pub open spec fn blit_pixel(src: Canvas, flip: bool, k: int) -> Rgba {
    let w = src.width as int;
    let h = src.height as int;
    let row = k / w;
    let src_row = if flip {
        row
    } else {
        h - 1 - row
    };
    src.pix(k % w, src_row)
}

impl<'a> Texture<'a> {
    /// Rows this block occupies: the source texture's height.
    pub open spec fn height_spec(&self) -> nat {
        self.image.height as nat
    }

    /// The `k`-th pixel of the block: column `k % width` of the source,
    /// from row `k / width` when flipped, else from the mirrored row.
    pub open spec fn pixel_spec(&self, k: int) -> Rgba {
        blit_pixel(*self.image, self.flip, k)
    }

    pub fn height(&self) -> (h: u32)
        ensures
            h as nat == self.height_spec(),
    {
        self.image.height
    }

    /// Blit the source texture into rows `offset ..`: block pixel `k` lands
    /// at linear address `offset * width + k`, and no other pixel moves.
    pub fn draw(&self, image: &mut Canvas, offset: u32)
        requires
            old(image).wf(),
            self.image.wf(),
            old(image).width == self.image.width,
            self.image.width > 0,
            offset as nat + self.height_spec() <= old(image).height as nat,
        ensures
            final(image).wf(),
            final(image).width == old(image).width,
            final(image).height == old(image).height,
            forall|k: int|
                0 <= k < self.image.width as int * self.image.height as int
                    ==> final(image).pixels@[offset as int * self.image.width as int + k]
                    == self.pixel_spec(k),
            unchanged_outside(
                old(image).pixels@,
                final(image).pixels@,
                offset as int * self.image.width as int,
                self.image.width as int * self.image.height as int,
            ),
    {
        let w: u32 = self.image.width;
        let h: u32 = self.image.height;
        let hgt = image.height;
        let ghost base = offset as int * w as int;
        let ghost count = w as int * h as int;
        proof {
            assert(base + count <= w as int * hgt as int) by (nonlinear_arith)
                requires
                    base == offset as int * w as int,
                    count == w as int * h as int,
                    offset as int + h as int <= hgt as int,
                    w > 0,
            ;
        }
        let mut y: u32 = 0;
        while y < h
            invariant
                y <= h,
                image.wf(),
                image.width == w,
                image.height == old(image).height,
                w == self.image.width,
                h == self.image.height,
                w > 0,
                self.image.wf(),
                base == offset as int * w as int,
                count == w as int * h as int,
                base + count <= image.width as nat * image.height as nat,
                forall|k: int| 0 <= k < y * w ==> image.pixels@[base + k] == self.pixel_spec(k),
                unchanged_outside(old(image).pixels@, image.pixels@, base, count),
            decreases h - y,
        {
            let src_row: u32 = if self.flip {
                y
            } else {
                h - 1 - y
            };
            let mut x: u32 = 0;
            proof {
                assert(y as int * w as int + w as int <= count) by (nonlinear_arith)
                    requires
                        count == w as int * h as int,
                        y < h,
                        w > 0,
                ;
            }
            while x < w
                invariant
                    x <= w,
                    y < h,
                    image.wf(),
                    image.width == w,
                    image.height == old(image).height,
                    w == self.image.width,
                    h == self.image.height,
                    w > 0,
                    self.image.wf(),
                    src_row == (if self.flip { y as int } else { h as int - 1 - y as int }),
                    base == offset as int * w as int,
                    count == w as int * h as int,
                    y as int * w as int + w as int <= count,
                    base + count <= image.width as nat * image.height as nat,
                    forall|k: int|
                        0 <= k < y * w + x ==> image.pixels@[base + k] == self.pixel_spec(k),
                    unchanged_outside(old(image).pixels@, image.pixels@, base, count),
                decreases w - x,
            {
                let p = self.image.get_pixel(x, src_row);
                let k: u32 = y * w + x;
                proof {
                    lemma_fundamental_div_mod(k as int, w as int);
                    assert(k as int / w as int == y as int && k as int % w as int == x as int)
                        by (nonlinear_arith)
                        requires
                            w > 0,
                            x < w,
                            k as int == y as int * w as int + x as int,
                            k as int == w as int * (k as int / w as int) + (k as int
                                % w as int),
                            0 <= k as int % w as int,
                            (k as int % w as int) < w as int,
                    ;
                }
                image.put_at(offset, k, p);
                proof {
                    assert(image.pixels@[base + k] == self.pixel_spec(k as int));
                }
                x = x + 1;
            }
            proof {
                assert((y as int + 1) * w as int == y as int * w as int + w as int)
                    by (nonlinear_arith);
            }
            y = y + 1;
        }
        proof {
            assert(h as int * w as int == count) by (nonlinear_arith)
                requires
                    count == w as int * h as int,
            ;
        }
    }
}

} // verus!

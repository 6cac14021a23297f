use vstd::prelude::*;
use vstd::arithmetic::div_mod::lemma_fundamental_div_mod;
use crate::canvas::{Canvas, Rgba};
use crate::convert::texture::property::unchanged_outside;
use crate::{ceil_div, lemma_ceil_div_exact, lemma_ceil_div_form};

verus! {

/// The identity section: one pixel per face of frame 0, each pixel
/// encoding its own canvas coordinate so the consumer can recover a face
/// index purely by sampling.
pub struct FaceIdProperty {
    pub length: u32,
    pub width: u32,
}

impl FaceIdProperty {
    /// Rows this section occupies: `ceil(length / width)`.
    pub open spec fn height_spec(&self) -> nat {
        ceil_div(self.length as nat, self.width as nat)
    }

    /// The identity pixel for face `i` in a section that starts at row
    /// `off`: the face's own column in the first two channels and its own
    /// absolute row in the last two, each split high byte / low byte.
    pub open spec fn pixel_spec(&self, i: int, off: int) -> Rgba {
        let x = i % (self.width as int);
        let y = i / (self.width as int) + off;
        Rgba {
            r: ((x / 0x100) % 0x100) as u8,
            g: (x % 0x100) as u8,
            b: ((y / 0x100) % 0x100) as u8,
            a: (y % 0x100) as u8,
        }
    }

    pub fn height(&self) -> (h: u32)
        requires
            self.width > 0,
        ensures
            h as nat == self.height_spec(),
    {
        proof {
            lemma_ceil_div_form(self.length as nat, self.width as nat);
        }
        let result = self.length / self.width;
        if self.length % self.width == 0 {
            result
        } else {
            proof {
                lemma_fundamental_div_mod(self.length as int, self.width as int);
                assert(result < u32::MAX) by (nonlinear_arith)
                    requires
                        self.width >= 2,
                        result >= 0,
                        self.length as int == self.width as int * result + (self.length as int
                            % self.width as int),
                        0 <= self.length as int % self.width as int,
                        self.length <= u32::MAX,
                ;
            }
            result + 1
        }
    }

    /// Draw the identity pixels at rows `offset ..`: face `i` lands at
    /// linear address `offset * width + i`, and no other pixel moves.
    pub fn draw(&self, buf: &mut Canvas, offset: u32)
        requires
            old(buf).wf(),
            old(buf).width == self.width,
            self.width > 0,
            offset as nat + self.height_spec() <= old(buf).height as nat,
        ensures
            final(buf).wf(),
            final(buf).width == old(buf).width,
            final(buf).height == old(buf).height,
            forall|i: int|
                0 <= i < self.length ==> final(buf).pixels@[offset as int * self.width as int + i]
                    == self.pixel_spec(i, offset as int),
            unchanged_outside(
                old(buf).pixels@,
                final(buf).pixels@,
                offset as int * self.width as int,
                self.length as int,
            ),
    {
        let width = buf.width;
        let hgt = buf.height;
        let ghost base = offset as int * width as int;
        proof {
            lemma_ceil_div_exact(self.length as nat, self.width as nat);
            assert(offset as int * width as int + self.length as int
                <= width as int * hgt as int) by (nonlinear_arith)
                requires
                    self.length as nat <= self.height_spec() * width as nat,
                    offset as nat + self.height_spec() <= hgt as nat,
            ;
        }
        let mut i: u32 = 0;
        while i < self.length
            invariant
                i <= self.length,
                buf.wf(),
                buf.width == self.width,
                buf.height == old(buf).height,
                width == self.width,
                self.width > 0,
                base == offset as int * width as int,
                base + self.length as int <= buf.width as nat * buf.height as nat,
                self.length as nat <= self.height_spec() * width as nat,
                offset as nat + self.height_spec() <= buf.height as nat,
                forall|k: int|
                    0 <= k < i ==> buf.pixels@[base + k] == self.pixel_spec(k, offset as int),
                unchanged_outside(old(buf).pixels@, buf.pixels@, base, self.length as int),
            decreases self.length - i,
        {
            proof {
                lemma_fundamental_div_mod(i as int, width as int);
                assert((i as int / width as int) < self.height_spec()) by (nonlinear_arith)
                    requires
                        width > 0,
                        i as int == width as int * (i as int / width as int) + (i as int
                            % width as int),
                        0 <= i as int % width as int,
                        i < self.length,
                        self.length as nat <= self.height_spec() * width as nat,
                ;
            }
            let x: u32 = i % width;
            let y: u32 = i / width + offset;
            let p = Rgba {
                r: ((x / 0x100) % 0x100) as u8,
                g: (x % 0x100) as u8,
                b: ((y / 0x100) % 0x100) as u8,
                a: (y % 0x100) as u8,
            };
            proof {
                assert(p == self.pixel_spec(i as int, offset as int));
            }
            buf.put_at(offset, i, p);
            i = i + 1;
        }
    }
}

} // verus!

use vstd::prelude::*;
use vstd::arithmetic::div_mod::lemma_fundamental_div_mod;
use crate::canvas::{Canvas, Rgba};
use crate::convert::texture::property::unchanged_outside;
use crate::obj::model::Vector;
use crate::quant::{quantize_uv_spec, quantize_uv, u24_rgba, encode_u24};
use crate::{ceil_div, lemma_ceil_div_exact, rows_for};

verus! {

/// The UV-data section: each pool entry quantized into two consecutive
/// pixels (x, y).
pub struct UVData<'a> {
    pub uvs: &'a Vec<Vector<u32>>,
    pub width: u32,
}

/// The `k`-th pixel of a UV-data section over pool `uvs`: axis `k % 2` of
/// pool entry `k / 2`, quantized and packed.
pub open spec fn uv_pixel(uvs: Seq<Vector<u32>>, k: int) -> Rgba {
    let v = uvs[k / 2];
    let bits = if k % 2 == 0 {
        v.x
    } else {
        v.y
    };
    u24_rgba(quantize_uv_spec(bits))
}

/// The two pixels one UV coordinate occupies: each axis quantized (without
/// the position bias) and packed 24-bit big-endian into RGB, alpha 255.
pub fn normal_to_gb(normal: &Vector<u32>) -> (r: [Rgba; 2])
    ensures
        r@ == seq![
            u24_rgba(quantize_uv_spec(normal.x)),
            u24_rgba(quantize_uv_spec(normal.y)),
        ],
{
    let x = encode_u24(quantize_uv(normal.x));
    let y = encode_u24(quantize_uv(normal.y));
    let r = [x, y];
    proof {
        assert(r@ =~= seq![
            u24_rgba(quantize_uv_spec(normal.x)),
            u24_rgba(quantize_uv_spec(normal.y)),
        ]);
    }
    r
}

impl<'a> UVData<'a> {
    /// Rows this section occupies: `ceil(2 * uvs / width)`.
    pub open spec fn height_spec(&self) -> nat {
        ceil_div(self.uvs@.len() * 2, self.width as nat)
    }

    /// The `k`-th pixel of the section: axis `k % 2` of pool entry `k / 2`,
    /// quantized and packed.
    pub open spec fn pixel_spec(&self, k: int) -> Rgba {
        uv_pixel(self.uvs@, k)
    }

    pub fn height(&self) -> (h: u32)
        requires
            self.width > 0,
            self.uvs@.len() * 2 <= u32::MAX,
        ensures
            h as nat == self.height_spec(),
    {
        rows_for(self.uvs.len() as u64 * 2, self.width)
    }

    /// Draw the quantized UVs at rows `offset ..`: channel `k` lands at
    /// linear address `offset * width + k`, and no other pixel moves.
    pub fn draw(&self, image: &mut Canvas, offset: u32)
        requires
            old(image).wf(),
            old(image).width == self.width,
            self.width > 0,
            self.uvs@.len() * 2 <= u32::MAX,
            offset as nat + self.height_spec() <= old(image).height as nat,
        ensures
            final(image).wf(),
            final(image).width == old(image).width,
            final(image).height == old(image).height,
            forall|k: int|
                0 <= k < self.uvs@.len() * 2 ==> final(image).pixels@[offset as int
                    * self.width as int + k] == self.pixel_spec(k),
            unchanged_outside(
                old(image).pixels@,
                final(image).pixels@,
                offset as int * self.width as int,
                self.uvs@.len() * 2 as int,
            ),
    {
        let width = self.width;
        let hgt = image.height;
        let count: u32 = (self.uvs.len() * 2) as u32;
        let ghost base = offset as int * width as int;
        proof {
            lemma_ceil_div_exact(self.uvs@.len() * 2, width as nat);
            assert(offset as int * width as int + count as int <= width as int * hgt as int)
                by (nonlinear_arith)
                requires
                    count as nat <= self.height_spec() * width as nat,
                    offset as nat + self.height_spec() <= hgt as nat,
            ;
        }
        let n = self.uvs.len();
        let mut i: usize = 0;
        while i < n
            invariant
                i <= n,
                n == self.uvs@.len(),
                count == n * 2,
                image.wf(),
                image.width == self.width,
                image.height == old(image).height,
                width == self.width,
                self.width > 0,
                base == offset as int * width as int,
                base + count as int <= image.width as nat * image.height as nat,
                forall|k: int| 0 <= k < 2 * i ==> image.pixels@[base + k] == self.pixel_spec(k),
                unchanged_outside(old(image).pixels@, image.pixels@, base, count as int),
            decreases n - i,
        {
            let gb = normal_to_gb(&self.uvs[i]);
            let k: u32 = (i as u32) * 2;
            proof {
                lemma_fundamental_div_mod(k as int, 2);
                lemma_fundamental_div_mod(k as int + 1, 2);
            }
            image.put_at(offset, k, gb[0]);
            image.put_at(offset, k + 1, gb[1]);
            proof {
                assert(k as int / 2 == i as int && k as int % 2 == 0) by (nonlinear_arith)
                    requires
                        k == 2 * i,
                        k as int == 2 * (k as int / 2) + (k as int % 2),
                        0 <= k as int % 2 < 2,
                ;
                assert((k + 1) as int / 2 == i as int && (k + 1) as int % 2 == 1)
                    by (nonlinear_arith)
                    requires
                        k == 2 * i,
                        (k + 1) as int == 2 * ((k + 1) as int / 2) + ((k + 1) as int % 2),
                        0 <= (k + 1) as int % 2 < 2,
                ;
                assert(image.pixels@[base + k] == self.pixel_spec(k as int));
                assert(image.pixels@[base + k + 1] == self.pixel_spec(k as int + 1));
            }
            i = i + 1;
        }
    }
}

} // verus!

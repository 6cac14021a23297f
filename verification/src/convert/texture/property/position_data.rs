use vstd::prelude::*;
use vstd::arithmetic::div_mod::lemma_fundamental_div_mod;
use crate::canvas::{Canvas, Rgba};
use crate::convert::texture::property::unchanged_outside;
use crate::obj::model::Position;
use crate::quant::{quantize_pos_spec, quantize_position, u24_rgba, encode_u24};
use crate::{ceil_div, lemma_ceil_div_exact, rows_for};

verus! {

/// The position-data section: each pool entry quantized into three
/// consecutive pixels (x, y, z).  `scale` and `offset` carry the raw bit
/// patterns of the configured transform; they are reserved for a future
/// quantization bias and not yet applied.
pub struct PositionData<'a> {
    pub vertices: &'a Vec<Position<u64>>,
    pub width: u32,
    pub scale: u64,
    pub offset: Position<u64>,
}

/// The `k`-th pixel of a position-data section over pool `verts`: axis
/// `k % 3` of pool entry `k / 3`, quantized and packed.
pub open spec fn pos_pixel(verts: Seq<Position<u64>>, k: int) -> Rgba {
    let v = verts[k / 3];
    let bits = if k % 3 == 0 {
        v.x
    } else if k % 3 == 1 {
        v.y
    } else {
        v.z
    };
    u24_rgba(quantize_pos_spec(bits))
}

/// The three pixels one position occupies: each axis quantized and packed
/// 24-bit big-endian into RGB, alpha 255.
pub fn pos_to_rgb(vertex: &Position<u64>) -> (r: [Rgba; 3])
    ensures
        r@ == seq![
            u24_rgba(quantize_pos_spec(vertex.x)),
            u24_rgba(quantize_pos_spec(vertex.y)),
            u24_rgba(quantize_pos_spec(vertex.z)),
        ],
{
    let x = encode_u24(quantize_position(vertex.x));
    let y = encode_u24(quantize_position(vertex.y));
    let z = encode_u24(quantize_position(vertex.z));
    let r = [x, y, z];
    proof {
        assert(r@ =~= seq![
            u24_rgba(quantize_pos_spec(vertex.x)),
            u24_rgba(quantize_pos_spec(vertex.y)),
            u24_rgba(quantize_pos_spec(vertex.z)),
        ]);
    }
    r
}

impl<'a> PositionData<'a> {
    /// Rows this section occupies: `ceil(3 * positions / width)`.
    pub open spec fn height_spec(&self) -> nat {
        ceil_div(self.vertices@.len() * 3, self.width as nat)
    }

    /// The `k`-th pixel of the section: axis `k % 3` of pool entry `k / 3`,
    /// quantized and packed.
    pub open spec fn pixel_spec(&self, k: int) -> Rgba {
        pos_pixel(self.vertices@, k)
    }

    pub fn height(&self) -> (h: u32)
        requires
            self.width > 0,
            self.vertices@.len() * 3 <= u32::MAX,
        ensures
            h as nat == self.height_spec(),
    {
        rows_for(self.vertices.len() as u64 * 3, self.width)
    }

    /// Draw the quantized positions at rows `offset ..`: channel `k` lands
    /// at linear address `offset * width + k`, and no other pixel moves.
    pub fn draw(&self, image: &mut Canvas, offset: u32)
        requires
            old(image).wf(),
            old(image).width == self.width,
            self.width > 0,
            self.vertices@.len() * 3 <= u32::MAX,
            offset as nat + self.height_spec() <= old(image).height as nat,
        ensures
            final(image).wf(),
            final(image).width == old(image).width,
            final(image).height == old(image).height,
            forall|k: int|
                0 <= k < self.vertices@.len() * 3 ==> final(image).pixels@[offset as int
                    * self.width as int + k] == self.pixel_spec(k),
            unchanged_outside(
                old(image).pixels@,
                final(image).pixels@,
                offset as int * self.width as int,
                self.vertices@.len() * 3 as int,
            ),
    {
        let width = self.width;
        let hgt = image.height;
        let count: u32 = (self.vertices.len() * 3) as u32;
        let ghost base = offset as int * width as int;
        proof {
            lemma_ceil_div_exact(self.vertices@.len() * 3, width as nat);
            assert(offset as int * width as int + count as int <= width as int * hgt as int)
                by (nonlinear_arith)
                requires
                    count as nat <= self.height_spec() * width as nat,
                    offset as nat + self.height_spec() <= hgt as nat,
            ;
        }
        let n = self.vertices.len();
        let mut i: usize = 0;
        while i < n
            invariant
                i <= n,
                n == self.vertices@.len(),
                count == n * 3,
                image.wf(),
                image.width == self.width,
                image.height == old(image).height,
                width == self.width,
                self.width > 0,
                base == offset as int * width as int,
                base + count as int <= image.width as nat * image.height as nat,
                forall|k: int| 0 <= k < 3 * i ==> image.pixels@[base + k] == self.pixel_spec(k),
                unchanged_outside(old(image).pixels@, image.pixels@, base, count as int),
            decreases n - i,
        {
            let rgb = pos_to_rgb(&self.vertices[i]);
            let k: u32 = (i as u32) * 3;
            proof {
                lemma_fundamental_div_mod(k as int, 3);
                lemma_fundamental_div_mod(k as int + 1, 3);
                lemma_fundamental_div_mod(k as int + 2, 3);
            }
            image.put_at(offset, k, rgb[0]);
            image.put_at(offset, k + 1, rgb[1]);
            image.put_at(offset, k + 2, rgb[2]);
            proof {
                assert(k as int / 3 == i as int && k as int % 3 == 0) by (nonlinear_arith)
                    requires
                        k == 3 * i,
                        k as int == 3 * (k as int / 3) + (k as int % 3),
                        0 <= k as int % 3 < 3,
                ;
                assert((k + 1) as int / 3 == i as int && (k + 1) as int % 3 == 1)
                    by (nonlinear_arith)
                    requires
                        k == 3 * i,
                        (k + 1) as int == 3 * ((k + 1) as int / 3) + ((k + 1) as int % 3),
                        0 <= (k + 1) as int % 3 < 3,
                ;
                assert((k + 2) as int / 3 == i as int && (k + 2) as int % 3 == 2)
                    by (nonlinear_arith)
                    requires
                        k == 3 * i,
                        (k + 2) as int == 3 * ((k + 2) as int / 3) + ((k + 2) as int % 3),
                        0 <= (k + 2) as int % 3 < 3,
                ;
                assert(image.pixels@[base + k] == self.pixel_spec(k as int));
                assert(image.pixels@[base + k + 1] == self.pixel_spec(k as int + 1));
                assert(image.pixels@[base + k + 2] == self.pixel_spec(k as int + 2));
            }
            i = i + 1;
        }
    }
}

} // verus!

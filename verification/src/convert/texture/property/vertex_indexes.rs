use vstd::prelude::*;
use vstd::arithmetic::div_mod::lemma_fundamental_div_mod;
use crate::canvas::{Canvas, Rgba};
use crate::convert::texture::property::unchanged_outside;
use crate::obj::frame::Frame;
use crate::obj::model::Face;
use crate::quant::{u24_rgba, encode_u24};
use crate::{ceil_div, lemma_ceil_div_exact, rows_for};

verus! {

/// The corners of a face list, flattened in face order.
pub open spec fn faces_corners(faces: Seq<Face>) -> Seq<(u32, u32)>
    decreases faces.len(),
{
    if faces.len() == 0 {
        Seq::empty()
    } else {
        faces_corners(faces.drop_last()) + faces.last().vertex_normals@
    }
}

/// Every corner of every frame, flattened: frames in order, faces in
/// order, corners in order.
pub open spec fn all_corners(frames: Seq<Frame>) -> Seq<(u32, u32)>
    decreases frames.len(),
{
    if frames.len() == 0 {
        Seq::empty()
    } else {
        all_corners(frames.drop_last()) + faces_corners(frames.last().faces@)
    }
}

/// All frames carry the same total corner count as frame 0, as the
/// animation contract assumes.
pub open spec fn frames_compatible(frames: Seq<Frame>) -> bool {
    forall|i: int|
        0 <= i < frames.len() ==> faces_corners((#[trigger] frames[i]).faces@).len()
            == faces_corners(frames[0].faces@).len()
}

pub proof fn lemma_faces_corners_take_succ(s: Seq<Face>, i: int)
    requires
        0 <= i < s.len(),
    ensures
        faces_corners(s.take(i + 1)) == faces_corners(s.take(i)) + s[i].vertex_normals@,
{
    assert(s.take(i + 1).drop_last() =~= s.take(i));
    assert(s.take(i + 1).last() == s[i]);
}

pub proof fn lemma_faces_corners_prefix_le(s: Seq<Face>, i: int)
    requires
        0 <= i <= s.len(),
    ensures
        faces_corners(s.take(i)).len() <= faces_corners(s).len(),
    decreases s.len() - i,
{
    if i < s.len() {
        lemma_faces_corners_take_succ(s, i);
        lemma_faces_corners_prefix_le(s, i + 1);
    } else {
        assert(s.take(i) =~= s);
    }
}

pub proof fn lemma_all_corners_take_succ(s: Seq<Frame>, i: int)
    requires
        0 <= i < s.len(),
    ensures
        all_corners(s.take(i + 1)) == all_corners(s.take(i)) + faces_corners(s[i].faces@),
{
    assert(s.take(i + 1).drop_last() =~= s.take(i));
    assert(s.take(i + 1).last() == s[i]);
}

/// With compatible frames the flattened corner stream is exactly
/// `frames * corners-per-frame` long.
pub proof fn lemma_all_corners_len_compat(frames: Seq<Frame>, c0: nat)
    requires
        forall|i: int|
            0 <= i < frames.len() ==> faces_corners((#[trigger] frames[i]).faces@).len() == c0,
    ensures
        all_corners(frames).len() == frames.len() * c0,
    decreases frames.len(),
{
    if frames.len() > 0 {
        assert(forall|i: int|
            0 <= i < frames.drop_last().len()
                ==> faces_corners((#[trigger] frames.drop_last()[i]).faces@).len() == c0);
        lemma_all_corners_len_compat(frames.drop_last(), c0);
        assert(frames.len() * c0 == (frames.len() - 1) * c0 + c0) by (nonlinear_arith);
    }
}

/// Sum the corner counts of one frame's faces.
pub fn count_frame_corners(frame: &Frame) -> (c: u64)
    requires
        faces_corners(frame.faces@).len() <= u32::MAX,
    ensures
        c as nat == faces_corners(frame.faces@).len(),
{
    let n = frame.faces.len();
    let mut c: u64 = 0;
    let mut i: usize = 0;
    proof {
        assert(frame.faces@.take(0) =~= Seq::<Face>::empty());
    }
    while i < n
        invariant
            i <= n,
            n == frame.faces@.len(),
            c as nat == faces_corners(frame.faces@.take(i as int)).len(),
            faces_corners(frame.faces@).len() <= u32::MAX,
        decreases n - i,
    {
        proof {
            lemma_faces_corners_take_succ(frame.faces@, i as int);
            lemma_faces_corners_prefix_le(frame.faces@, i as int + 1);
        }
        c = c + frame.faces[i].vertex_normals.len() as u64;
        i = i + 1;
    }
    proof {
        assert(frame.faces@.take(n as int) =~= frame.faces@);
    }
    c
}

/// Flatten every corner of every frame into one list, in stream order.
fn flatten_corners(frames: &Vec<Frame>) -> (flat: Vec<(u32, u32)>)
    ensures
        flat@ == all_corners(frames@),
{
    let mut flat: Vec<(u32, u32)> = Vec::new();
    let nf = frames.len();
    let mut fi: usize = 0;
    proof {
        assert(frames@.take(0) =~= Seq::<Frame>::empty());
        assert(flat@ =~= all_corners(frames@.take(0)));
    }
    while fi < nf
        invariant
            fi <= nf,
            nf == frames@.len(),
            flat@ == all_corners(frames@.take(fi as int)),
        decreases nf - fi,
    {
        let faces = &frames[fi].faces;
        let nj = faces.len();
        let mut fj: usize = 0;
        proof {
            assert(faces@.take(0) =~= Seq::<Face>::empty());
            assert(flat@ =~= all_corners(frames@.take(fi as int)) + faces_corners(
                faces@.take(0),
            ));
        }
        while fj < nj
            invariant
                fj <= nj,
                fi < nf,
                nf == frames@.len(),
                nj == faces@.len(),
                faces == &frames@[fi as int].faces,
                flat@ == all_corners(frames@.take(fi as int)) + faces_corners(
                    faces@.take(fj as int),
                ),
            decreases nj - fj,
        {
            let corners = &faces[fj].vertex_normals;
            let nc = corners.len();
            let mut ci: usize = 0;
            proof {
                assert(corners@.take(0) =~= Seq::<(u32, u32)>::empty());
                assert(flat@ =~= all_corners(frames@.take(fi as int)) + faces_corners(
                    faces@.take(fj as int),
                ) + corners@.take(0));
            }
            while ci < nc
                invariant
                    ci <= nc,
                    fj < nj,
                    fi < nf,
                    nf == frames@.len(),
                    nj == faces@.len(),
                    nc == corners@.len(),
                    faces == &frames@[fi as int].faces,
                    corners == &faces@[fj as int].vertex_normals,
                    flat@ == all_corners(frames@.take(fi as int)) + faces_corners(
                        faces@.take(fj as int),
                    ) + corners@.take(ci as int),
                decreases nc - ci,
            {
                flat.push(corners[ci]);
                proof {
                    assert(corners@.take(ci as int + 1) =~= corners@.take(ci as int).push(
                        corners@[ci as int],
                    ));
                    assert(flat@ =~= all_corners(frames@.take(fi as int)) + faces_corners(
                        faces@.take(fj as int),
                    ) + corners@.take(ci as int + 1));
                }
                ci = ci + 1;
            }
            proof {
                assert(corners@.take(nc as int) =~= corners@);
                lemma_faces_corners_take_succ(faces@, fj as int);
                assert(flat@ =~= all_corners(frames@.take(fi as int)) + faces_corners(
                    faces@.take(fj as int + 1),
                ));
            }
            fj = fj + 1;
        }
        proof {
            assert(faces@.take(nj as int) =~= faces@);
            lemma_all_corners_take_succ(frames@, fi as int);
            assert(flat@ =~= all_corners(frames@.take(fi as int + 1)));
        }
        fi = fi + 1;
    }
    proof {
        assert(frames@.take(nf as int) =~= frames@);
    }
    flat
}

/// The `k`-th pixel of a vertex-index section over `frames`: the position
/// index (even `k`) or UV index (odd `k`) of corner `k / 2` of the
/// flattened stream.
pub open spec fn vtx_pixel(frames: Seq<Frame>, k: int) -> Rgba {
    let c = all_corners(frames)[k / 2];
    if k % 2 == 0 {
        u24_rgba(c.0)
    } else {
        u24_rgba(c.1)
    }
}

/// The pixel pair one corner occupies: its position-pool index and its
/// UV-pool index, each packed 24-bit big-endian into RGB with alpha 255.
pub fn to_rgb(texture_id: u32, uv_id: u32) -> (r: [Rgba; 2])
    ensures
        r@ == seq![u24_rgba(texture_id), u24_rgba(uv_id)],
{
    let x = encode_u24(texture_id);
    let y = encode_u24(uv_id);
    let r = [x, y];
    proof {
        assert(r@ =~= seq![u24_rgba(texture_id), u24_rgba(uv_id)]);
    }
    r
}

/// The vertex-index section: per frame, face and corner, a pixel pair
/// holding the corner's position-pool and UV-pool indices, each 24-bit
/// big-endian with alpha 255.
pub struct VertexIndexes<'a> {
    pub frames: &'a Vec<Frame>,
    pub width: u32,
}

impl<'a> VertexIndexes<'a> {
    /// Rows this section occupies:
    /// `ceil(frames * corners-per-frame * 2 / width)`, sized from frame 0.
    pub open spec fn height_spec(&self) -> nat {
        ceil_div(self.frames@.len() * faces_corners(self.frames@[0].faces@).len() * 2,
            self.width as nat)
    }

    /// The `k`-th pixel of the section: the position index (even `k`) or
    /// UV index (odd `k`) of corner `k / 2` of the flattened stream.
    pub open spec fn pixel_spec(&self, k: int) -> Rgba {
        vtx_pixel(self.frames@, k)
    }

    pub fn height(&self) -> (h: u32)
        requires
            self.width > 0,
            self.frames@.len() > 0,
            self.frames@.len() * faces_corners(self.frames@[0].faces@).len() * 2 <= u32::MAX,
        ensures
            h as nat == self.height_spec(),
    {
        proof {
            assert(faces_corners(self.frames@[0].faces@).len() <= u32::MAX) by (nonlinear_arith)
                requires
                    self.frames@.len() > 0,
                    self.frames@.len() * faces_corners(self.frames@[0].faces@).len() * 2
                        <= u32::MAX,
            ;
        }
        let c0 = count_frame_corners(&self.frames[0]);
        let total: u64 = self.frames.len() as u64 * c0 * 2;
        proof {
            assert(total as nat == self.frames@.len() * faces_corners(
                self.frames@[0].faces@,
            ).len() * 2);
        }
        rows_for(total, self.width)
    }

    /// Draw the corner stream at rows `offset ..`: pixel `k` lands at
    /// linear address `offset * width + k`, and no other pixel moves.
    /// Requires frames compatible with frame 0, which sized the section.
    pub fn draw(&self, image: &mut Canvas, offset: u32)
        requires
            old(image).wf(),
            old(image).width == self.width,
            self.width > 0,
            self.frames@.len() > 0,
            frames_compatible(self.frames@),
            self.frames@.len() * faces_corners(self.frames@[0].faces@).len() * 2 <= u32::MAX,
            offset as nat + self.height_spec() <= old(image).height as nat,
        ensures
            final(image).wf(),
            final(image).width == old(image).width,
            final(image).height == old(image).height,
            forall|k: int|
                0 <= k < all_corners(self.frames@).len() * 2 ==> final(image).pixels@[offset as int
                    * self.width as int + k] == self.pixel_spec(k),
            unchanged_outside(
                old(image).pixels@,
                final(image).pixels@,
                offset as int * self.width as int,
                all_corners(self.frames@).len() * 2 as int,
            ),
    {
        let width = self.width;
        let hgt = image.height;
        let flat = flatten_corners(self.frames);
        proof {
            lemma_all_corners_len_compat(
                self.frames@,
                faces_corners(self.frames@[0].faces@).len(),
            );
        }
        let count: u32 = (flat.len() * 2) as u32;
        let ghost base = offset as int * width as int;
        proof {
            lemma_ceil_div_exact(
                self.frames@.len() * faces_corners(self.frames@[0].faces@).len() * 2,
                width as nat,
            );
            assert(offset as int * width as int + count as int <= width as int * hgt as int)
                by (nonlinear_arith)
                requires
                    count as nat <= self.height_spec() * width as nat,
                    offset as nat + self.height_spec() <= hgt as nat,
            ;
        }
        let n = flat.len();
        let mut i: usize = 0;
        while i < n
            invariant
                i <= n,
                n == flat@.len(),
                flat@ == all_corners(self.frames@),
                count == n * 2,
                image.wf(),
                image.width == self.width,
                image.height == old(image).height,
                width == self.width,
                self.width > 0,
                base == offset as int * width as int,
                base + count as int <= image.width as nat * image.height as nat,
                forall|k: int| 0 <= k < 2 * i ==> image.pixels@[base + k] == self.pixel_spec(k),
                unchanged_outside(old(image).pixels@, image.pixels@, base, count as int),
            decreases n - i,
        {
            let pair = flat[i];
            let rgb = to_rgb(pair.0, pair.1);
            let px = rgb[0];
            let py = rgb[1];
            let k: u32 = (i as u32) * 2;
            proof {
                lemma_fundamental_div_mod(k as int, 2);
                lemma_fundamental_div_mod(k as int + 1, 2);
            }
            image.put_at(offset, k, px);
            image.put_at(offset, k + 1, py);
            proof {
                assert(k as int / 2 == i as int && k as int % 2 == 0) by (nonlinear_arith)
                    requires
                        k == 2 * i,
                        k as int == 2 * (k as int / 2) + (k as int % 2),
                        0 <= k as int % 2 < 2,
                ;
                assert((k + 1) as int / 2 == i as int && (k + 1) as int % 2 == 1)
                    by (nonlinear_arith)
                    requires
                        k == 2 * i,
                        (k + 1) as int == 2 * ((k + 1) as int / 2) + ((k + 1) as int % 2),
                        0 <= (k + 1) as int % 2 < 2,
                ;
                assert(image.pixels@[base + k] == self.pixel_spec(k as int));
                assert(image.pixels@[base + k + 1] == self.pixel_spec(k as int + 1));
            }
            i = i + 1;
        }
    }
}

} // verus!

use vstd::prelude::*;
use crate::canvas::Canvas;
use crate::convert::texture::property::{unchanged_outside, FaceIdProperty};
use crate::ceil_div;

verus! {

/// Write the per-face identity pixels into the rows directly below the
/// settings row: face `i` gets the pixel at `(i % width, i / width + 1)`,
/// encoding that pixel's own coordinate.
pub fn create_face_uv_id_header(buf: &mut Canvas, length: u32)
    requires
        old(buf).wf(),
        old(buf).width > 0,
        1 + ceil_div(length as nat, old(buf).width as nat) <= old(buf).height as nat,
    ensures
        final(buf).wf(),
        final(buf).width == old(buf).width,
        final(buf).height == old(buf).height,
        forall|i: int|
            0 <= i < length ==> final(buf).pixels@[old(buf).width as int + i]
                == (FaceIdProperty { length, width: old(buf).width }).pixel_spec(i, 1),
        unchanged_outside(
            old(buf).pixels@,
            final(buf).pixels@,
            old(buf).width as int,
            length as int,
        ),
    {
        let prop = FaceIdProperty { length, width: buf.width };
        prop.draw(buf, 1);
    }

} // verus!

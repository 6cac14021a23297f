use vstd::prelude::*;
use crate::canvas::{Canvas, Rgba};
use crate::convert::texture::property::unchanged_outside;

verus! {

/// The scalar configuration packed into the one-row settings section:
/// exactly seven pixels, each channel an independent byte field.
pub struct SettingsProperty {
    pub compress: bool,
    pub texture_size: [u16; 2],
    pub vert_count: u32,
    pub frame_count: u32,
    pub texture_count: u8,
    pub duration: u32,
    pub easing: u8,
    pub autoplay: bool,
    pub fade_texture: bool,
    pub vp_height: u16,
    pub vt_height: u16,
    pub no_shadow: bool,
    pub autorotate_pitch: bool,
    pub autorotate_yaw: bool,
    pub visibility: u8,
    pub color_behavior: u8,
}

impl SettingsProperty {
    /// The field codes the draw routine relies on fit their bit slots.
    pub open spec fn wf(&self) -> bool {
        &&& self.easing <= 3
        &&& self.visibility <= 7
    }

    /// The settings section is always exactly one row.
    pub open spec fn height_spec(&self) -> nat {
        1
    }

    /// Pixel `j` of the settings row.
    pub open spec fn pixel_spec(&self, j: int) -> Rgba {
        let sx = self.texture_size[0] as int;
        let sy = self.texture_size[1] as int;
        let vc = self.vert_count as int;
        let fc = self.frame_count as int;
        let dur = self.duration as int;
        if j == 0 {
            // the 2-byte format marker, a constant, and the compression tag
            Rgba { r: 12, g: 34, b: 56, a: if self.compress { 79 } else { 78 } }
        } else if j == 1 {
            // texture width and height, high byte / low byte each
            Rgba {
                r: (sx / 0x100) as u8,
                g: (sx % 0x100) as u8,
                b: (sy / 0x100) as u8,
                a: (sy % 0x100) as u8,
            }
        } else if j == 2 {
            // 32-bit big-endian rendered-vertex count
            Rgba {
                r: ((vc / 0x100_0000) % 0x100) as u8,
                g: ((vc / 0x1_0000) % 0x100) as u8,
                b: ((vc / 0x100) % 0x100) as u8,
                a: (vc % 0x100) as u8,
            }
        } else if j == 3 {
            // 24-bit big-endian frame count, then the texture count
            Rgba {
                r: ((fc / 0x1_0000) % 0x100) as u8,
                g: ((fc / 0x100) % 0x100) as u8,
                b: (fc % 0x100) as u8,
                a: self.texture_count,
            }
        } else if j == 4 {
            // 24-bit big-endian duration, then the animation flag byte:
            // bit 7 constant, bit 6 autoplay, bits 5-4 easing, bit 2 fade
            Rgba {
                r: ((dur / 0x1_0000) % 0x100) as u8,
                g: ((dur / 0x100) % 0x100) as u8,
                b: (dur % 0x100) as u8,
                a: (0x80 + (if self.autoplay { 0x40 as int } else { 0 }) + self.easing * 0x10
                    + (if self.fade_texture { 4 as int } else { 0 })) as u8,
            }
        } else if j == 5 {
            // position-data and UV-data section row counts, high/low bytes
            Rgba {
                r: (self.vp_height as int / 0x100) as u8,
                g: (self.vp_height as int % 0x100) as u8,
                b: (self.vt_height as int / 0x100) as u8,
                a: (self.vt_height as int % 0x100) as u8,
            }
        } else {
            // flags: bit 7 no-shadow, bit 6 autorotate-pitch, bit 5
            // autorotate-yaw, bits 4-2 visibility; then the packed
            // color-behavior byte and two constant bytes
            Rgba {
                r: ((if self.no_shadow { 0x80 as int } else { 0 })
                    + (if self.autorotate_pitch { 0x40 as int } else { 0 })
                    + (if self.autorotate_yaw { 0x20 as int } else { 0 })
                    + self.visibility * 4) as u8,
                g: self.color_behavior,
                b: 255,
                a: 255,
            }
        }
    }

    pub fn height(&self) -> (h: u32)
        ensures
            h as nat == self.height_spec(),
    {
        1
    }

    /// Write the seven settings pixels into row `offset`, leaving every
    /// other pixel alone.
    pub fn draw(&self, image_buffer: &mut Canvas, offset: u32)
        requires
            old(image_buffer).wf(),
            self.wf(),
            old(image_buffer).width >= 7,
            offset < old(image_buffer).height,
        ensures
            final(image_buffer).wf(),
            final(image_buffer).width == old(image_buffer).width,
            final(image_buffer).height == old(image_buffer).height,
            forall|j: int|
                0 <= j < 7 ==> final(image_buffer).pixels@[offset as int
                    * old(image_buffer).width as int + j] == self.pixel_spec(j),
            unchanged_outside(
                old(image_buffer).pixels@,
                final(image_buffer).pixels@,
                offset as int * old(image_buffer).width as int,
                7,
            ),
    {
        let w = image_buffer.width;
        let hgt = image_buffer.height;
        let ghost base = offset as int * w as int;
        proof {
            assert(base + 7 <= w as int * hgt as int) by (nonlinear_arith)
                requires
                    base == offset as int * w as int,
                    offset as int + 1 <= hgt as int,
                    w >= 7,
            ;
        }
        image_buffer.put_at(
            offset,
            0,
            Rgba { r: 12, g: 34, b: 56, a: if self.compress { 79 } else { 78 } },
        );
        let sx = self.texture_size[0];
        let sy = self.texture_size[1];
        image_buffer.put_at(
            offset,
            1,
            Rgba {
                r: (sx / 0x100) as u8,
                g: (sx % 0x100) as u8,
                b: (sy / 0x100) as u8,
                a: (sy % 0x100) as u8,
            },
        );
        let vc = self.vert_count;
        image_buffer.put_at(
            offset,
            2,
            Rgba {
                r: ((vc / 0x100_0000) % 0x100) as u8,
                g: ((vc / 0x1_0000) % 0x100) as u8,
                b: ((vc / 0x100) % 0x100) as u8,
                a: (vc % 0x100) as u8,
            },
        );
        let fc = self.frame_count;
        image_buffer.put_at(
            offset,
            3,
            Rgba {
                r: ((fc / 0x1_0000) % 0x100) as u8,
                g: ((fc / 0x100) % 0x100) as u8,
                b: (fc % 0x100) as u8,
                a: self.texture_count,
            },
        );
        let dur = self.duration;
        image_buffer.put_at(
            offset,
            4,
            Rgba {
                r: ((dur / 0x1_0000) % 0x100) as u8,
                g: ((dur / 0x100) % 0x100) as u8,
                b: (dur % 0x100) as u8,
                a: 0x80 + (if self.autoplay { 0x40 } else { 0 }) + self.easing * 0x10
                    + (if self.fade_texture { 4 } else { 0 }),
            },
        );
        image_buffer.put_at(
            offset,
            5,
            Rgba {
                r: (self.vp_height / 0x100) as u8,
                g: (self.vp_height % 0x100) as u8,
                b: (self.vt_height / 0x100) as u8,
                a: (self.vt_height % 0x100) as u8,
            },
        );
        image_buffer.put_at(
            offset,
            6,
            Rgba {
                r: (if self.no_shadow { 0x80 } else { 0 })
                    + (if self.autorotate_pitch { 0x40 } else { 0 })
                    + (if self.autorotate_yaw { 0x20 } else { 0 }) + self.visibility * 4,
                g: self.color_behavior,
                b: 255,
                a: 255,
            },
        );
        proof {
            assert(forall|j: int|
                0 <= j < 7 ==> image_buffer.pixels@[base + j] == self.pixel_spec(j));
        }
    }
}

} // verus!

pub mod property;
pub mod settings;
pub mod face_id_header;

use vstd::prelude::*;
use vstd::arithmetic::div_mod::{lemma_fundamental_div_mod, lemma_fundamental_div_mod_converse};
use crate::canvas::{blank_pixel, Canvas, Rgba};
use crate::convert::config::{easing_code_spec, textures_same_size, ConvertConfig};
use crate::convert::texture::property::{
    all_corners, blit_pixel, faces_corners, frames_compatible, pos_pixel, uv_pixel, vtx_pixel,
    FaceIdProperty, PositionData, SettingsProperty, Texture, UVData, VertexIndexes,
};
use crate::convert::texture::property::{
    lemma_faces_corners_prefix_le, lemma_faces_corners_take_succ, lemma_all_corners_len_compat,
};
use crate::obj::frame::Frame;
use crate::obj::model::Face;
use crate::{ceil_div, lemma_ceil_div_exact, next_pow2, next_power_of_two, rows_for};

verus! {

/// Encoding fails only when the computed canvas would not fit the machine
/// limits of the pixel format.
#[derive(Debug, Copy, Clone, PartialEq, Eq, Structural)]
pub enum TextureError {
    /// A section count or the canvas size exceeds the addressable range.
    CanvasTooLarge,
}

/// The face count of frame 0, which sizes the identity section.
pub open spec fn face_count_of(config: ConvertConfig) -> nat {
    config.input.obj.frames@[0].faces@.len()
}

/// The per-frame corner total of frame 0, which sizes the vertex-index
/// section.
pub open spec fn corners0_of(config: ConvertConfig) -> nat {
    faces_corners(config.input.obj.frames@[0].faces@).len()
}

/// Rows of the identity section.
pub open spec fn id_rows(config: ConvertConfig) -> nat {
    ceil_div(face_count_of(config), config.texture_size.0 as nat)
}

/// Rows of the texture blocks: one full copy per source texture.
pub open spec fn tex_rows(config: ConvertConfig) -> nat {
    config.input.textures@.len() * config.texture_size.1 as nat
}

/// Rows of the position-data section.
pub open spec fn pos_rows(config: ConvertConfig) -> nat {
    ceil_div(config.input.obj.vertices@.len() * 3, config.texture_size.0 as nat)
}

/// Rows of the UV-data section.
pub open spec fn uv_rows(config: ConvertConfig) -> nat {
    ceil_div(config.input.obj.uvs@.len() * 2, config.texture_size.0 as nat)
}

/// Rows of the vertex-index section, sized from frame 0.
pub open spec fn vtx_rows(config: ConvertConfig) -> nat {
    ceil_div(
        config.input.obj.frames@.len() * corners0_of(config) * 2,
        config.texture_size.0 as nat,
    )
}

/// The canvas height before power-of-two padding: the sections stacked
/// with zero gap, in their fixed order.
pub open spec fn base_rows(config: ConvertConfig) -> nat {
    1 + id_rows(config) + tex_rows(config) + pos_rows(config) + uv_rows(config) + vtx_rows(
        config,
    )
}

/// The final canvas height: padded up to the next power of two unless the
/// power-of-two flag (`no_pow`) disables padding.
pub open spec fn total_rows(config: ConvertConfig) -> nat {
    if config.no_pow {
        base_rows(config)
    } else {
        next_pow2(base_rows(config))
    }
}

/// Everything create_texture asks of its input: a configuration as the
/// validating constructor builds it, with well-formed textures, at least
/// one frame, frames that agree on their corner total, and a texture size
/// that can hold the seven header pixels.
pub open spec fn texture_input_wf(config: ConvertConfig) -> bool {
    &&& config.input.textures@.len() > 0
    &&& textures_same_size(config.input.textures@)
    &&& config.texture_size == (
        config.input.textures@[0].width,
        config.input.textures@[0].height,
    )
    &&& forall|t: int|
        0 <= t < config.input.textures@.len() ==> (#[trigger] config.input.textures@[t]).wf()
    &&& config.input.obj.frames@.len() > 0
    &&& frames_compatible(config.input.obj.frames@)
    &&& config.texture_size.0 >= 7
    &&& config.texture_size.1 >= 1
}

/// The machine limits the encoding must respect: every section's pixel
/// count and the whole canvas stay within the addressable 32-bit range.
pub open spec fn layout_fits(config: ConvertConfig) -> bool {
    &&& face_count_of(config) * 4 <= u32::MAX
    &&& config.input.obj.vertices@.len() * 3 <= u32::MAX
    &&& config.input.obj.uvs@.len() * 2 <= u32::MAX
    &&& config.input.obj.frames@.len() <= u32::MAX
    &&& config.input.obj.frames@.len() * corners0_of(config) * 2 <= u32::MAX
    &&& tex_rows(config) <= u32::MAX
    &&& base_rows(config) <= u32::MAX
    &&& (!config.no_pow ==> base_rows(config) <= 0x8000_0000)
    &&& config.texture_size.0 as nat * total_rows(config) <= u32::MAX
}

/// The settings-header fields derived from a configuration: the duration
/// clamped into `[1, 65536]`, the easing and selector codes, the data
/// section row counts (saturated into their 16-bit header slots), and the
/// counts, with the rendered-vertex count fixed at four per face.
pub open spec fn settings_of(config: ConvertConfig) -> SettingsProperty {
    SettingsProperty {
        compress: config.compress,
        texture_size: [
            (config.texture_size.0 % 0x10000) as u16,
            (config.texture_size.1 % 0x10000) as u16,
        ],
        vert_count: (face_count_of(config) * 4) as u32,
        frame_count: config.input.obj.frames@.len() as u32,
        texture_count: (config.input.textures@.len() % 0x100) as u8,
        duration: (if config.animation.duration < 1 {
            1 as u32
        } else if config.animation.duration > 65536 {
            65536 as u32
        } else {
            config.animation.duration
        }),
        easing: easing_code_spec(config.animation.easing),
        autoplay: config.animation.autoplay,
        fade_texture: config.animation.fade_textures,
        vp_height: (if pos_rows(config) > 0xFFFF {
            0xFFFF as u16
        } else {
            pos_rows(config) as u16
        }),
        vt_height: (if uv_rows(config) > 0xFFFF {
            0xFFFF as u16
        } else {
            uv_rows(config) as u16
        }),
        no_shadow: config.no_shadow,
        autorotate_pitch: config.autorotate_pitch,
        autorotate_yaw: config.autorotate_yaw,
        visibility: config.visibility.to_u8_spec(),
        color_behavior: config.color_behavior.to_u8_spec(),
    }
}

/// The linear address where the texture blocks start.
pub open spec fn tex_base(config: ConvertConfig) -> int {
    config.texture_size.0 as int * (1 + id_rows(config)) as int
}

/// The linear address where the position-data section starts.
pub open spec fn pos_base(config: ConvertConfig) -> int {
    config.texture_size.0 as int * (1 + id_rows(config) + tex_rows(config)) as int
}

/// The linear address where the UV-data section starts.
pub open spec fn uv_base(config: ConvertConfig) -> int {
    config.texture_size.0 as int * (1 + id_rows(config) + tex_rows(config) + pos_rows(
        config,
    )) as int
}

/// The linear address where the vertex-index section starts.
pub open spec fn vtx_base(config: ConvertConfig) -> int {
    config.texture_size.0 as int * (1 + id_rows(config) + tex_rows(config) + pos_rows(config)
        + uv_rows(config)) as int
}

/// The linear address just past the last section.
pub open spec fn end_base(config: ConvertConfig) -> int {
    config.texture_size.0 as int * base_rows(config) as int
}

/// The value of every pixel of the encoded canvas, by linear row-major
/// address: the settings row, the identity section, the texture copies,
/// the quantized position and UV pools, the vertex-index stream, and
/// transparent black in every cell no section claims (row remainders and
/// power-of-two padding).
pub open spec fn output_pixel(config: ConvertConfig, j: int) -> Rgba {
    let w = config.texture_size.0 as int;
    let th = config.texture_size.1 as int;
    if j < w {
        if j < 7 {
            settings_of(config).pixel_spec(j)
        } else {
            blank_pixel()
        }
    } else if j < tex_base(config) {
        let i = j - w;
        if i < face_count_of(config) {
            (FaceIdProperty {
                length: face_count_of(config) as u32,
                width: config.texture_size.0,
            }).pixel_spec(i, 1)
        } else {
            blank_pixel()
        }
    } else if j < pos_base(config) {
        let r = j - tex_base(config);
        let t = r / (w * th);
        let k = r % (w * th);
        blit_pixel(config.input.textures@[t], config.flip_uv, k)
    } else if j < uv_base(config) {
        let k = j - pos_base(config);
        if k < config.input.obj.vertices@.len() * 3 {
            pos_pixel(config.input.obj.vertices@, k)
        } else {
            blank_pixel()
        }
    } else if j < vtx_base(config) {
        let k = j - uv_base(config);
        if k < config.input.obj.uvs@.len() * 2 {
            uv_pixel(config.input.obj.uvs@, k)
        } else {
            blank_pixel()
        }
    } else if j < end_base(config) {
        let k = j - vtx_base(config);
        if k < all_corners(config.input.obj.frames@).len() * 2 {
            vtx_pixel(config.input.obj.frames@, k)
        } else {
            blank_pixel()
        }
    } else {
        blank_pixel()
    }
}


/// The canvas is correct up to linear address `bound` and still blank
/// beyond it: the invariant the encoder passes maintain as they paint the
/// sections in address order.
spec fn painted_upto(config: ConvertConfig, pix: Seq<Rgba>, len: int, bound: int) -> bool {
    &&& pix.len() == len
    &&& forall|j: int| 0 <= j < bound ==> pix[j] == output_pixel(config, j)
    &&& forall|j: int| bound <= j < len ==> pix[j] == blank_pixel()
}

/// Sum the corner counts of one frame's faces, reporting an overflowing
/// total instead of computing it.
fn count_frame_corners_capped(frame: &Frame) -> (r: Option<u64>)
    ensures
        match r {
            Some(c) => c as nat == faces_corners(frame.faces@).len() && c <= u32::MAX,
            None => faces_corners(frame.faces@).len() > u32::MAX,
        },
{
    let n = frame.faces.len();
    let mut c: u64 = 0;
    let mut i: usize = 0;
    proof {
        assert(frame.faces@.take(0) =~= Seq::<Face>::empty());
    }
    while i < n
        invariant
            i <= n,
            n == frame.faces@.len(),
            c as nat == faces_corners(frame.faces@.take(i as int)).len(),
            c <= u32::MAX,
        decreases n - i,
    {
        proof {
            lemma_faces_corners_take_succ(frame.faces@, i as int);
            lemma_faces_corners_prefix_le(frame.faces@, i as int + 1);
        }
        let add = frame.faces[i].vertex_normals.len();
        if add as u64 > u32::MAX as u64 || c + add as u64 > u32::MAX as u64 {
            return None;
        }
        c = c + add as u64;
        i = i + 1;
    }
    proof {
        assert(frame.faces@.take(n as int) =~= frame.faces@);
    }
    Some(c)
}



/// Assemble the settings-header fields from a validated configuration;
/// the one builder both the section encoder and the fixed-row header use.
pub fn build_settings(config: &ConvertConfig) -> (settings: SettingsProperty)
    requires
        texture_input_wf(*config),
        layout_fits(*config),
    ensures
        settings == settings_of(*config),
        settings.wf(),
{
    let width: u32 = config.texture_size.0;
    let theight: u32 = config.texture_size.1;
    let face_count: u32 = config.input.obj.frames[0].faces.len() as u32;
    let h_pos: u32 = rows_for(config.input.obj.vertices.len() as u64 * 3, width);
    let h_uv: u32 = rows_for(config.input.obj.uvs.len() as u64 * 2, width);
    let settings = SettingsProperty {
        compress: config.compress,
        texture_size: [(width % 0x10000) as u16, (theight % 0x10000) as u16],
        vert_count: face_count * 4,
        frame_count: config.input.obj.frames.len() as u32,
        texture_count: (config.input.textures.len() % 0x100) as u8,
        duration: if config.animation.duration < 1 {
            1
        } else if config.animation.duration > 65536 {
            65536
        } else {
            config.animation.duration
        },
        easing: match config.animation.easing {
            Some(crate::convert::config::Easing::Linear) => 1,
            Some(crate::convert::config::Easing::InOutCubic) => 2,
            Some(crate::convert::config::Easing::Bezier) => 3,
            None => 0,
        },
        autoplay: config.animation.autoplay,
        fade_texture: config.animation.fade_textures,
        vp_height: if h_pos > 0xFFFF {
            0xFFFF
        } else {
            h_pos as u16
        },
        vt_height: if h_uv > 0xFFFF {
            0xFFFF
        } else {
            h_uv as u16
        },
        no_shadow: config.no_shadow,
        autorotate_pitch: config.autorotate_pitch,
        autorotate_yaw: config.autorotate_yaw,
        visibility: config.visibility.to_u8(),
        color_behavior: config.color_behavior.to_u8(),
    };
    proof {
        assert(settings.texture_size@ =~= settings_of(*config).texture_size@);
        assert(settings.texture_size == settings_of(*config).texture_size);
        assert(settings == settings_of(*config));
    }
    settings
}

/// Lay out and draw the whole output canvas: compute every section's row
/// count, allocate the (optionally power-of-two padded) canvas, and let
/// each encoder pass paint its reserved rows in the fixed order
/// settings, identity, textures, position data, UV data, vertex indices.
///
/// Fails exactly when the layout breaks a machine limit of the format;
/// on success every pixel of the canvas equals `output_pixel`.
pub fn create_texture(config: &ConvertConfig) -> (r: Result<Canvas, TextureError>)
    requires
        texture_input_wf(*config),
    ensures
        match r {
            Ok(canvas) => {
                &&& layout_fits(*config)
                &&& canvas.wf()
                &&& canvas.width == config.texture_size.0
                &&& canvas.height as nat == total_rows(*config)
                &&& forall|j: int|
                    0 <= j < canvas.pixels@.len() ==> canvas.pixels@[j] == output_pixel(
                        *config,
                        j,
                    )
            },
            Err(e) => e == TextureError::CanvasTooLarge && !layout_fits(*config),
        },
{
    let width: u32 = config.texture_size.0;
    let theight: u32 = config.texture_size.1;

    // ---- sizes and machine-limit checks ----
    let fc_usize: usize = config.input.obj.frames[0].faces.len();
    if fc_usize as u64 > 0x3FFF_FFFF {
        return Err(TextureError::CanvasTooLarge);
    }
    let face_count: u32 = fc_usize as u32;

    let npos: usize = config.input.obj.vertices.len();
    if npos as u64 > 0x5555_5555 {
        return Err(TextureError::CanvasTooLarge);
    }
    let nuv: usize = config.input.obj.uvs.len();
    if nuv as u64 > 0x7FFF_FFFF {
        return Err(TextureError::CanvasTooLarge);
    }
    let nframes: usize = config.input.obj.frames.len();
    if nframes as u64 > u32::MAX as u64 {
        return Err(TextureError::CanvasTooLarge);
    }
    let c0: u64 = match count_frame_corners_capped(&config.input.obj.frames[0]) {
        Some(c) => c,
        None => {
            proof {
                assert(config.input.obj.frames@.len() * corners0_of(*config) * 2 > u32::MAX)
                    by (nonlinear_arith)
                    requires
                        config.input.obj.frames@.len() >= 1,
                        corners0_of(*config) > u32::MAX,
                ;
            }
            return Err(TextureError::CanvasTooLarge);
        },
    };
    proof {
        assert(nframes as u64 * c0 <= 0xFFFF_FFFFu64 * 0xFFFF_FFFFu64) by (nonlinear_arith)
            requires
                nframes as u64 <= 0xFFFF_FFFFu64,
                c0 <= 0xFFFF_FFFFu64,
        ;
    }
    let p1: u64 = nframes as u64 * c0;
    proof {
        assert(p1 as nat == config.input.obj.frames@.len() * corners0_of(*config));
    }
    if p1 > 0x7FFF_FFFF {
        proof {
            assert(config.input.obj.frames@.len() * corners0_of(*config) * 2 > u32::MAX);
        }
        return Err(TextureError::CanvasTooLarge);
    }
    let vtx_count: u32 = (2 * p1) as u32;

    let ntex: usize = config.input.textures.len();
    if ntex as u64 > u32::MAX as u64 {
        proof {
            assert(tex_rows(*config) > u32::MAX) by (nonlinear_arith)
                requires
                    tex_rows(*config) == config.input.textures@.len()
                        * config.texture_size.1 as nat,
                    config.input.textures@.len() > u32::MAX,
                    config.texture_size.1 >= 1,
            ;
        }
        return Err(TextureError::CanvasTooLarge);
    }
    proof {
        assert(ntex as u64 * theight as u64 <= 0xFFFF_FFFFu64 * 0xFFFF_FFFFu64)
            by (nonlinear_arith)
            requires
                ntex as u64 <= 0xFFFF_FFFFu64,
                theight as u64 <= 0xFFFF_FFFFu64,
        ;
    }
    let trows64: u64 = ntex as u64 * theight as u64;
    proof {
        assert(trows64 as nat == tex_rows(*config));
    }
    if trows64 > u32::MAX as u64 {
        return Err(TextureError::CanvasTooLarge);
    }

    // ---- section heights ----
    let id_prop = FaceIdProperty { length: face_count, width };
    let h_id: u32 = id_prop.height();
    let h_pos: u32 = rows_for(npos as u64 * 3, width);
    let h_uv: u32 = rows_for(nuv as u64 * 2, width);
    let h_vtx: u32 = rows_for(vtx_count as u64, width);
    proof {
        assert(h_id as nat == id_rows(*config));
        assert(h_pos as nat == pos_rows(*config));
        assert(h_uv as nat == uv_rows(*config));
        assert(h_vtx as nat == vtx_rows(*config));
    }
    let base64: u64 = 1 + h_id as u64 + trows64 + h_pos as u64 + h_uv as u64 + h_vtx as u64;
    proof {
        assert(base64 as nat == base_rows(*config));
    }
    if base64 > u32::MAX as u64 {
        return Err(TextureError::CanvasTooLarge);
    }
    let base_h: u32 = base64 as u32;
    let final_h: u32 = if config.no_pow {
        base_h
    } else {
        if base_h > 0x8000_0000 {
            return Err(TextureError::CanvasTooLarge);
        }
        if base_h == 0 {
            // unreachable: the settings row alone contributes one row
            1
        } else {
            next_power_of_two(base_h)
        }
    };
    proof {
        assert(final_h as nat == total_rows(*config));
        assert(final_h >= base_h);
    }
    proof {
        assert(width as u64 * final_h as u64 <= 0xFFFF_FFFFu64 * 0xFFFF_FFFFu64)
            by (nonlinear_arith)
            requires
                width as u64 <= 0xFFFF_FFFFu64,
                final_h as u64 <= 0xFFFF_FFFFu64,
        ;
    }
    if width as u64 * final_h as u64 > u32::MAX as u64 {
        return Err(TextureError::CanvasTooLarge);
    }
    proof {
        assert(layout_fits(*config));
    }

    // ---- the canvas and the encoder passes ----
    let mut buf = Canvas::new(width, final_h);
    let ghost len = width as int * final_h as int;
    let ghost cfg = *config;
    proof {
        assert(width as int <= len && end_base(cfg) <= len && vtx_base(cfg) <= len
            && uv_base(cfg) <= len && pos_base(cfg) <= len && tex_base(cfg) <= len)
            by (nonlinear_arith)
            requires
                len == width as int * final_h as int,
                final_h as nat >= base_rows(cfg),
                width >= 1,
                final_h >= 1,
                base_rows(cfg) == 1 + id_rows(cfg) + tex_rows(cfg) + pos_rows(cfg) + uv_rows(
                    cfg,
                ) + vtx_rows(cfg),
                end_base(cfg) == width as int * base_rows(cfg) as int,
                vtx_base(cfg) == width as int * (1 + id_rows(cfg) + tex_rows(cfg) + pos_rows(
                    cfg,
                ) + uv_rows(cfg)) as int,
                uv_base(cfg) == width as int * (1 + id_rows(cfg) + tex_rows(cfg) + pos_rows(
                    cfg,
                )) as int,
                pos_base(cfg) == width as int * (1 + id_rows(cfg) + tex_rows(cfg)) as int,
                tex_base(cfg) == width as int * (1 + id_rows(cfg)) as int,
        ;
        assert(width as int <= tex_base(cfg) <= pos_base(cfg) <= uv_base(cfg) <= vtx_base(cfg)
            <= end_base(cfg)) by (nonlinear_arith)
            requires
                width >= 1,
                end_base(cfg) == width as int * base_rows(cfg) as int,
                base_rows(cfg) == 1 + id_rows(cfg) + tex_rows(cfg) + pos_rows(cfg) + uv_rows(
                    cfg,
                ) + vtx_rows(cfg),
                vtx_base(cfg) == width as int * (1 + id_rows(cfg) + tex_rows(cfg) + pos_rows(
                    cfg,
                ) + uv_rows(cfg)) as int,
                uv_base(cfg) == width as int * (1 + id_rows(cfg) + tex_rows(cfg) + pos_rows(
                    cfg,
                )) as int,
                pos_base(cfg) == width as int * (1 + id_rows(cfg) + tex_rows(cfg)) as int,
                tex_base(cfg) == width as int * (1 + id_rows(cfg)) as int,
        ;
    }

    // settings
    let settings = build_settings(config);
    proof {
        assert(painted_upto(cfg, buf.pixels@, len, 0));
    }
    let ghost prev0 = buf.pixels@;
    settings.draw(&mut buf, 0);
    proof {
        assert forall|j: int| 0 <= j < width as int implies buf.pixels@[j] == output_pixel(
            cfg,
            j,
        ) by {
            if j < 7 {
                assert(buf.pixels@[0 * width as int + j] == settings.pixel_spec(j));
            } else {
                assert(buf.pixels@[j] == prev0[j]);
            }
        }
        assert forall|j: int| width as int <= j < len implies buf.pixels@[j] == blank_pixel() by {
            assert(buf.pixels@[j] == prev0[j]);
        }
        assert(painted_upto(cfg, buf.pixels@, len, width as int));
    }

    // identity
    let mut offset: u32 = 1;
    proof {
        assert(1 + h_id as int <= final_h as int);
        assert(tex_base(cfg) == width as int + width as int * h_id as int) by (nonlinear_arith)
            requires
                tex_base(cfg) == width as int * (1 + id_rows(cfg)) as int,
                h_id as nat == id_rows(cfg),
        ;
        assert(face_count as int <= width as int * h_id as int) by {
            lemma_ceil_div_exact(face_count_of(cfg), width as nat);
            assert(id_rows(cfg) * width as nat == width as nat * id_rows(cfg))
                by (nonlinear_arith);
        }
    }
    let ghost prev1 = buf.pixels@;
    id_prop.draw(&mut buf, offset);
    proof {
        assert forall|j: int| width as int <= j < tex_base(cfg) implies buf.pixels@[j]
            == output_pixel(cfg, j) by {
            let i = j - width as int;
            if i < face_count {
                assert(buf.pixels@[1 as int * width as int + i] == id_prop.pixel_spec(i, 1));
            } else {
                assert(buf.pixels@[j] == prev1[j]);
            }
        }
        assert forall|j: int| 0 <= j < width as int implies buf.pixels@[j] == output_pixel(
            cfg,
            j,
        ) by {
            assert(buf.pixels@[j] == prev1[j]);
        }
        assert forall|j: int| tex_base(cfg) <= j < len implies buf.pixels@[j]
            == blank_pixel() by {
            assert(buf.pixels@[j] == prev1[j]);
        }
        assert(painted_upto(cfg, buf.pixels@, len, tex_base(cfg)));
    }
    offset = offset + h_id;

    // textures
    let mut t: usize = 0;
    proof {
        assert(width as int * offset as int == tex_base(cfg)) by (nonlinear_arith)
            requires
                offset as int == 1 + id_rows(cfg),
                tex_base(cfg) == width as int * (1 + id_rows(cfg)) as int,
        ;
    }
    while t < ntex
        invariant
            t <= ntex,
            ntex == cfg.input.textures@.len(),
            texture_input_wf(cfg),
            cfg == *config,
            buf.wf(),
            buf.width == width,
            buf.height == final_h,
            width == cfg.texture_size.0,
            theight == cfg.texture_size.1,
            width >= 7,
            theight >= 1,
            final_h >= 1,
            offset as int == 1 + id_rows(cfg) + t * theight as nat,
            offset as int + (ntex - t) * theight as int + h_pos as int + h_uv as int
                + h_vtx as int <= final_h as int,
            h_pos as nat == pos_rows(cfg),
            h_uv as nat == uv_rows(cfg),
            h_vtx as nat == vtx_rows(cfg),
            len == width as int * final_h as int,
            pos_base(cfg) <= len,
            width as int <= tex_base(cfg),
            painted_upto(cfg, buf.pixels@, len, tex_base(cfg) + t * (width as int
                * theight as int)),
        decreases ntex - t,
    {
        let tex_prop = Texture { image: &config.input.textures[t], flip: config.flip_uv };
        let ghost start = tex_base(cfg) + t * (width as int * theight as int);
        let ghost blk = width as int * theight as int;
        proof {
            assert(cfg.input.textures@[t as int].width == width
                && cfg.input.textures@[t as int].height == theight);
            assert(width as int * offset as int == start) by (nonlinear_arith)
                requires
                    offset as int == 1 + id_rows(cfg) + t * theight as nat,
                    start == tex_base(cfg) + t * (width as int * theight as int),
                    tex_base(cfg) == width as int * (1 + id_rows(cfg)) as int,
            ;
            assert(offset as int + theight as int <= final_h as int) by (nonlinear_arith)
                requires
                    offset as int + (ntex - t) * theight as int + h_pos as int + h_uv as int
                        + h_vtx as int <= final_h as int,
                    t < ntex,
                    theight >= 1,
                    h_pos >= 0,
                    h_uv >= 0,
                    h_vtx >= 0,
            ;
        }
        let ghost prevt = buf.pixels@;
        tex_prop.draw(&mut buf, offset);
        proof {
            assert(blk >= 1) by (nonlinear_arith)
                requires
                    width >= 1,
                    theight >= 1,
                    blk == width as int * theight as int,
            ;
            assert(pos_base(cfg) == tex_base(cfg) + ntex * blk) by (nonlinear_arith)
                requires
                    pos_base(cfg) == width as int * (1 + id_rows(cfg) + tex_rows(cfg)) as int,
                    tex_base(cfg) == width as int * (1 + id_rows(cfg)) as int,
                    tex_rows(cfg) == ntex * theight as nat,
                    blk == width as int * theight as int,
            ;
            assert((t + 1) * blk == t * blk + blk) by (nonlinear_arith);
            assert(t * blk >= 0) by (nonlinear_arith)
                requires
                    t >= 0,
                    blk >= 0,
            ;
            assert(start + blk <= pos_base(cfg)) by (nonlinear_arith)
                requires
                    start == tex_base(cfg) + t * blk,
                    pos_base(cfg) == tex_base(cfg) + ntex * blk,
                    t < ntex,
                    blk >= 0,
            ;
            assert(start == offset as int * cfg.input.textures@[t as int].width as int);
            assert forall|j: int| start <= j < start + blk implies buf.pixels@[j]
                == output_pixel(cfg, j) by {
                let k = j - start;
                assert(buf.pixels@[offset as int * cfg.input.textures@[t as int].width as int
                    + k] == tex_prop.pixel_spec(k));
                assert(buf.pixels@[j] == blit_pixel(cfg.input.textures@[t as int],
                    cfg.flip_uv, k));
                let r = j - tex_base(cfg);
                assert(r == t * blk + k);
                lemma_fundamental_div_mod_converse(r, blk, t as int, k);
                assert(r / blk == t as int && r % blk == k);
            }
            assert forall|j: int| 0 <= j < start implies buf.pixels@[j] == output_pixel(
                cfg,
                j,
            ) by {
                assert(buf.pixels@[j] == prevt[j]);
            }
            assert forall|j: int| start + blk <= j < len implies buf.pixels@[j]
                == blank_pixel() by {
                assert(buf.pixels@[j] == prevt[j]);
            }
            assert(painted_upto(cfg, buf.pixels@, len, start + blk));
        }
        offset = offset + theight;
        t = t + 1;
        proof {
            assert(offset as int == 1 + id_rows(cfg) + t * theight as nat) by (nonlinear_arith)
                requires
                    offset as int - theight as int == 1 + id_rows(cfg) + (t - 1)
                        * theight as nat,
            ;
            assert(offset as int + (ntex - t) * theight as int + h_pos as int + h_uv as int
                + h_vtx as int <= final_h as int) by (nonlinear_arith)
                requires
                    (offset - theight) as int + (ntex - (t - 1)) * theight as int
                        + h_pos as int + h_uv as int + h_vtx as int <= final_h as int,
            ;
        }
    }

    // position data
    proof {
        assert(width as int * offset as int == pos_base(cfg)) by (nonlinear_arith)
            requires
                offset as int == 1 + id_rows(cfg) + ntex * theight as nat,
                tex_rows(cfg) == ntex * theight as nat,
                pos_base(cfg) == width as int * (1 + id_rows(cfg) + tex_rows(cfg)) as int,
        ;
        assert(tex_base(cfg) + ntex * (width as int * theight as int) == pos_base(cfg))
            by (nonlinear_arith)
            requires
                pos_base(cfg) == width as int * (1 + id_rows(cfg) + tex_rows(cfg)) as int,
                tex_base(cfg) == width as int * (1 + id_rows(cfg)) as int,
                tex_rows(cfg) == ntex * theight as nat,
        ;
        assert(offset as int + h_pos as int + h_uv as int + h_vtx as int <= final_h as int);
    }
    let pos_prop = PositionData {
        vertices: &config.input.obj.vertices,
        width,
        scale: config.scale,
        offset: config.offset,
    };
    let ghost prev2 = buf.pixels@;
    pos_prop.draw(&mut buf, offset);
    proof {
        let cnt = cfg.input.obj.vertices@.len() * 3 as int;
        assert(uv_base(cfg) == pos_base(cfg) + width as int * pos_rows(cfg) as int)
            by (nonlinear_arith)
            requires
                uv_base(cfg) == width as int * (1 + id_rows(cfg) + tex_rows(cfg) + pos_rows(
                    cfg,
                )) as int,
                pos_base(cfg) == width as int * (1 + id_rows(cfg) + tex_rows(cfg)) as int,
        ;
        assert(cnt <= width as int * pos_rows(cfg) as int) by {
            lemma_ceil_div_exact(cfg.input.obj.vertices@.len() * 3, width as nat);
            assert(pos_rows(cfg) * width as nat == width as nat * pos_rows(cfg))
                by (nonlinear_arith);
        }
        assert forall|j: int| pos_base(cfg) <= j < uv_base(cfg) implies buf.pixels@[j]
            == output_pixel(cfg, j) by {
            let k = j - pos_base(cfg);
            if k < cnt {
                assert(buf.pixels@[offset as int * width as int + k]
                    == pos_prop.pixel_spec(k));
            } else {
                assert(buf.pixels@[j] == prev2[j]);
            }
        }
        assert forall|j: int| 0 <= j < pos_base(cfg) implies buf.pixels@[j] == output_pixel(
            cfg,
            j,
        ) by {
            assert(buf.pixels@[j] == prev2[j]);
        }
        assert forall|j: int| uv_base(cfg) <= j < len implies buf.pixels@[j]
            == blank_pixel() by {
            assert(buf.pixels@[j] == prev2[j]);
        }
        assert(painted_upto(cfg, buf.pixels@, len, uv_base(cfg)));
    }
    offset = offset + h_pos;

    // UV data
    proof {
        assert(width as int * offset as int == uv_base(cfg)) by (nonlinear_arith)
            requires
                offset as int == 1 + id_rows(cfg) + tex_rows(cfg) + pos_rows(cfg),
                uv_base(cfg) == width as int * (1 + id_rows(cfg) + tex_rows(cfg) + pos_rows(
                    cfg,
                )) as int,
        ;
    }
    let uv_prop = UVData { uvs: &config.input.obj.uvs, width };
    let ghost prev3 = buf.pixels@;
    uv_prop.draw(&mut buf, offset);
    proof {
        let cnt = cfg.input.obj.uvs@.len() * 2 as int;
        assert(vtx_base(cfg) == uv_base(cfg) + width as int * uv_rows(cfg) as int)
            by (nonlinear_arith)
            requires
                vtx_base(cfg) == width as int * (1 + id_rows(cfg) + tex_rows(cfg) + pos_rows(
                    cfg,
                ) + uv_rows(cfg)) as int,
                uv_base(cfg) == width as int * (1 + id_rows(cfg) + tex_rows(cfg) + pos_rows(
                    cfg,
                )) as int,
        ;
        assert(cnt <= width as int * uv_rows(cfg) as int) by {
            lemma_ceil_div_exact(cfg.input.obj.uvs@.len() * 2, width as nat);
            assert(uv_rows(cfg) * width as nat == width as nat * uv_rows(cfg))
                by (nonlinear_arith);
        }
        assert forall|j: int| uv_base(cfg) <= j < vtx_base(cfg) implies buf.pixels@[j]
            == output_pixel(cfg, j) by {
            let k = j - uv_base(cfg);
            if k < cnt {
                assert(buf.pixels@[offset as int * width as int + k] == uv_prop.pixel_spec(k));
            } else {
                assert(buf.pixels@[j] == prev3[j]);
            }
        }
        assert forall|j: int| 0 <= j < uv_base(cfg) implies buf.pixels@[j] == output_pixel(
            cfg,
            j,
        ) by {
            assert(buf.pixels@[j] == prev3[j]);
        }
        assert forall|j: int| vtx_base(cfg) <= j < len implies buf.pixels@[j]
            == blank_pixel() by {
            assert(buf.pixels@[j] == prev3[j]);
        }
        assert(painted_upto(cfg, buf.pixels@, len, vtx_base(cfg)));
    }
    offset = offset + h_uv;

    // vertex indices
    proof {
        assert(width as int * offset as int == vtx_base(cfg)) by (nonlinear_arith)
            requires
                offset as int == 1 + id_rows(cfg) + tex_rows(cfg) + pos_rows(cfg) + uv_rows(
                    cfg,
                ),
                vtx_base(cfg) == width as int * (1 + id_rows(cfg) + tex_rows(cfg) + pos_rows(
                    cfg,
                ) + uv_rows(cfg)) as int,
        ;
        lemma_all_corners_len_compat(cfg.input.obj.frames@, corners0_of(cfg));
    }
    let vtx_prop = VertexIndexes { frames: &config.input.obj.frames, width };
    let ghost prev4 = buf.pixels@;
    vtx_prop.draw(&mut buf, offset);
    proof {
        let cnt = all_corners(cfg.input.obj.frames@).len() * 2 as int;
        assert(end_base(cfg) == vtx_base(cfg) + width as int * vtx_rows(cfg) as int)
            by (nonlinear_arith)
            requires
                end_base(cfg) == width as int * base_rows(cfg) as int,
                base_rows(cfg) == 1 + id_rows(cfg) + tex_rows(cfg) + pos_rows(cfg) + uv_rows(
                    cfg,
                ) + vtx_rows(cfg),
                vtx_base(cfg) == width as int * (1 + id_rows(cfg) + tex_rows(cfg) + pos_rows(
                    cfg,
                ) + uv_rows(cfg)) as int,
        ;
        assert(cnt <= width as int * vtx_rows(cfg) as int) by {
            lemma_ceil_div_exact(
                cfg.input.obj.frames@.len() * corners0_of(cfg) * 2,
                width as nat,
            );
            assert(vtx_rows(cfg) * width as nat == width as nat * vtx_rows(cfg))
                by (nonlinear_arith);
        }
        assert forall|j: int| vtx_base(cfg) <= j < end_base(cfg) implies buf.pixels@[j]
            == output_pixel(cfg, j) by {
            let k = j - vtx_base(cfg);
            if k < cnt {
                assert(buf.pixels@[offset as int * width as int + k]
                    == vtx_prop.pixel_spec(k));
            } else {
                assert(buf.pixels@[j] == prev4[j]);
            }
        }
        assert forall|j: int| 0 <= j < vtx_base(cfg) implies buf.pixels@[j] == output_pixel(
            cfg,
            j,
        ) by {
            assert(buf.pixels@[j] == prev4[j]);
        }
        assert forall|j: int| end_base(cfg) <= j < len implies buf.pixels@[j]
            == blank_pixel() by {
            assert(buf.pixels@[j] == prev4[j]);
        }
        assert(forall|j: int|
            0 <= j < buf.pixels@.len() ==> buf.pixels@[j] == #[trigger] output_pixel(cfg, j));
    }
    Ok(buf)
}

} // verus!

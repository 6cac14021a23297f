use objmc::canvas::{Canvas, Rgba};
use objmc::convert::config::{
    Animation, ColorBehavior, ConfigError, ConvertConfig, Input, SingleColorBehavior, Visibility,
};
use objmc::convert::convert;
use objmc::convert::texture::face_id_header::create_face_uv_id_header;
use objmc::convert::texture::settings::{SettingsError, SettingsHeader};
use objmc::next_power_of_two;
use objmc::obj::frame::Frame;
use objmc::obj::model::Position;
use objmc::obj::{collect_number_tokens, FramedObj, NumberEntry, NumberTable};
use objmc::convert::texture::property::{PositionData, UVData};
use objmc::obj::model::Vector;

fn build_table(sources: &Vec<Vec<u8>>) -> NumberTable {
    let mut entries = Vec::new();
    for token in collect_number_tokens(sources) {
        let text = std::str::from_utf8(&token).ok().map(|s| s.to_string());
        let dbits = text
            .as_ref()
            .and_then(|s| s.parse::<f64>().ok())
            .map(|v| v.to_bits());
        let sbits = text
            .as_ref()
            .and_then(|s| s.parse::<f32>().ok())
            .map(|v| v.to_bits());
        entries.push(NumberEntry { token, dbits, sbits });
    }
    NumberTable { entries }
}

fn load(text: &[&str]) -> FramedObj {
    let sources: Vec<Vec<u8>> = text.iter().map(|s| s.as_bytes().to_vec()).collect();
    let table = build_table(&sources);
    FramedObj::read(&sources, &table).unwrap()
}

fn make_config(obj: FramedObj, textures: Vec<Canvas>, compress: bool, no_pow: bool, flip_uv: bool)
    -> Result<ConvertConfig, ConfigError> {
    ConvertConfig::new(
        Input { obj, textures },
        "out.png".to_string(),
        Position::new(0u64, 0u64, 0u64),
        0u64,
        Animation { autoplay: false, duration: 0, fade_textures: true, easing: None },
        ColorBehavior(
            SingleColorBehavior::Pitch,
            SingleColorBehavior::Yaw,
            SingleColorBehavior::Roll,
        ),
        false,
        false,
        compress,
        false,
        no_pow,
        flip_uv,
        Visibility { gui: true, first_person: true, world: true },
    )
}

fn quad_mesh() -> FramedObj {
    load(&["v 0 0 0\nv 1 0 0\nv 1 1 0\nv 0 1 0\nvt 0 0\nvt 1 0\nvt 1 1\nvt 0 1\nf 1/1 2/2 3/3\nf 1/1 3/3 4/4\n"])
}

fn uv_pool_of(n: u32) -> FramedObj {
    let mut fo = FramedObj { vertices: Vec::new(), uvs: Vec::new(), frames: Vec::new() };
    for i in 0..n {
        fo.uvs.push(Vector::new(i, 0));
    }
    fo.frames.push(Frame { faces: Vec::new() });
    fo
}

#[test]
fn config_requires_a_texture() {
    let fo = uv_pool_of(0);
    assert!(matches!(make_config(fo, Vec::new(), false, false, false),
        Err(ConfigError::NoTextures)));
}

#[test]
fn config_rejects_mismatched_texture_sizes() {
    let fo = uv_pool_of(0);
    let textures = vec![Canvas::new(16, 16), Canvas::new(16, 8)];
    assert!(matches!(make_config(fo, textures, false, false, false),
        Err(ConfigError::TextureSizeMismatch)));
}

#[test]
fn compression_clamp_at_257_uvs() {
    let config = make_config(uv_pool_of(257), vec![Canvas::new(16, 16)], true, false, false)
        .unwrap();
    assert!(!config.compress);
}

#[test]
fn compression_kept_at_256_uvs() {
    let config = make_config(uv_pool_of(256), vec![Canvas::new(16, 16)], true, false, false)
        .unwrap();
    assert!(config.compress);
}

#[test]
fn height_padding_rounds_up_to_power_of_two() {
    assert_eq!(next_power_of_two(130), 256);
    assert_eq!(next_power_of_two(128), 128);
    assert_eq!(next_power_of_two(1), 1);
    assert_eq!(next_power_of_two(2), 2);
    assert_eq!(next_power_of_two(3), 4);
    assert_eq!(next_power_of_two(0x8000_0000), 0x8000_0000);
}

#[test]
fn section_sizing_257_positions_at_width_64() {
    let mut verts: Vec<Position<u64>> = Vec::new();
    for i in 0..257u64 {
        verts.push(Position::new(i, 0, 0));
    }
    let prop = PositionData {
        vertices: &verts,
        width: 64,
        scale: 0,
        offset: Position::new(0u64, 0u64, 0u64),
    };
    // 257 positions occupy 771 pixels: exactly 13 rows of 64
    assert_eq!(prop.height(), 13);
}

#[test]
fn section_sizing_exact_rows() {
    let mut uvs: Vec<Vector<u32>> = Vec::new();
    for i in 0..256u32 {
        uvs.push(Vector::new(i, 0));
    }
    let prop = UVData { uvs: &uvs, width: 64 };
    assert_eq!(prop.height(), 8);
}

#[test]
fn end_to_end_single_frame_quad() {
    let config = make_config(quad_mesh(), vec![Canvas::new(16, 16)], false, false, false)
        .unwrap();
    let canvas = convert(config).unwrap();
    assert_eq!(canvas.width, 16);
    // base height 1 + 1 + 16 + 1 + 1 + 1 = 21, padded to 32
    assert_eq!(canvas.height, 32);

    // settings pixel 0: the format marker, compression off
    let p0 = canvas.get_pixel(0, 0);
    assert_eq!((p0.r, p0.g, p0.b, p0.a), (12, 34, 56, 78));
    // settings pixel 1 encodes the 16 x 16 texture size
    let p1 = canvas.get_pixel(1, 0);
    assert_eq!((p1.r, p1.g, p1.b, p1.a), (0, 16, 0, 16));
    // settings pixel 2: four rendered vertices per face
    let p2 = canvas.get_pixel(2, 0);
    assert_eq!((p2.r, p2.g, p2.b, p2.a), (0, 0, 0, 8));
    // settings pixel 3: one frame, one texture
    let p3 = canvas.get_pixel(3, 0);
    assert_eq!((p3.r, p3.g, p3.b, p3.a), (0, 0, 1, 1));
    // settings pixel 4: duration clamped to 1; flag byte has the constant
    // bit and the fade bit
    let p4 = canvas.get_pixel(4, 0);
    assert_eq!((p4.r, p4.g, p4.b, p4.a), (0, 0, 1, 0x80 + 4));
    // settings pixel 5: one row of position data, one of UV data
    let p5 = canvas.get_pixel(5, 0);
    assert_eq!((p5.r, p5.g, p5.b, p5.a), (0, 1, 0, 1));
    // settings pixel 6: visibility bits 4-2, packed selectors, constants
    let p6 = canvas.get_pixel(6, 0);
    assert_eq!((p6.r, p6.g, p6.b, p6.a), (7 << 2, (1 << 3) | 2, 255, 255));

    // identity section: one row, each pixel encodes its own coordinate
    let id0 = canvas.get_pixel(0, 1);
    assert_eq!((id0.r, id0.g, id0.b, id0.a), (0, 0, 0, 1));
    let id1 = canvas.get_pixel(1, 1);
    assert_eq!((id1.r, id1.g, id1.b, id1.a), (0, 1, 0, 1));
    // beyond the two faces the identity row stays blank
    let blank = canvas.get_pixel(2, 1);
    assert_eq!((blank.r, blank.g, blank.b, blank.a), (0, 0, 0, 0));

    // position data at row 18: origin quantizes to the bare bias 2^23
    let v0 = canvas.get_pixel(0, 18);
    assert_eq!((v0.r, v0.g, v0.b, v0.a), (128, 0, 0, 255));
    // second position's x = 1.0 quantizes to 2^23 + 2^16
    let v1x = canvas.get_pixel(3, 18);
    assert_eq!((v1x.r, v1x.g, v1x.b, v1x.a), (129, 0, 0, 255));

    // UV data at row 19: (0,0) then (1,0); 1.0 quantizes to 2^16
    let uv0 = canvas.get_pixel(0, 19);
    assert_eq!((uv0.r, uv0.g, uv0.b, uv0.a), (0, 0, 0, 255));
    let uv1x = canvas.get_pixel(2, 19);
    assert_eq!((uv1x.r, uv1x.g, uv1x.b, uv1x.a), (1, 0, 0, 255));

    // vertex indices at row 20: corner 0 is (position 0, uv 0), corner 1
    // is (position 1, uv 1); ceil(2*3*2/16) = 1 row
    let c0p = canvas.get_pixel(0, 20);
    assert_eq!((c0p.r, c0p.g, c0p.b, c0p.a), (0, 0, 0, 255));
    let c1p = canvas.get_pixel(2, 20);
    assert_eq!((c1p.r, c1p.g, c1p.b, c1p.a), (0, 0, 1, 255));
    let c1u = canvas.get_pixel(3, 20);
    assert_eq!((c1u.r, c1u.g, c1u.b, c1u.a), (0, 0, 1, 255));

    // the power-of-two padding rows stay blank
    let pad = canvas.get_pixel(0, 31);
    assert_eq!((pad.r, pad.g, pad.b, pad.a), (0, 0, 0, 0));
}

#[test]
fn end_to_end_no_pow_keeps_raw_height() {
    let config = make_config(quad_mesh(), vec![Canvas::new(16, 16)], false, true, false)
        .unwrap();
    let canvas = convert(config).unwrap();
    assert_eq!(canvas.height, 21);
}

#[test]
fn texture_blit_mirrors_without_flip() {
    let mut tex = Canvas::new(16, 16);
    tex.put_pixel(3, 0, Rgba { r: 9, g: 8, b: 7, a: 6 });
    let config = make_config(quad_mesh(), vec![tex], false, false, false).unwrap();
    let canvas = convert(config).unwrap();
    // texture block rows 2..18; source row 0 lands mirrored on block row 15
    let p = canvas.get_pixel(3, 2 + 15);
    assert_eq!((p.r, p.g, p.b, p.a), (9, 8, 7, 6));
    let q = canvas.get_pixel(3, 2);
    assert_eq!((q.r, q.g, q.b, q.a), (0, 0, 0, 0));
}

#[test]
fn texture_blit_natural_with_flip() {
    let mut tex = Canvas::new(16, 16);
    tex.put_pixel(3, 0, Rgba { r: 9, g: 8, b: 7, a: 6 });
    let config = make_config(quad_mesh(), vec![tex], false, false, true).unwrap();
    let canvas = convert(config).unwrap();
    let p = canvas.get_pixel(3, 2);
    assert_eq!((p.r, p.g, p.b, p.a), (9, 8, 7, 6));
}

#[test]
fn two_textures_occupy_two_blocks() {
    let mut t0 = Canvas::new(16, 16);
    t0.put_pixel(0, 15, Rgba { r: 1, g: 1, b: 1, a: 1 });
    let mut t1 = Canvas::new(16, 16);
    t1.put_pixel(0, 15, Rgba { r: 2, g: 2, b: 2, a: 2 });
    let config = make_config(quad_mesh(), vec![t0, t1], false, true, false).unwrap();
    let canvas = convert(config).unwrap();
    // mirrored: source row 15 lands on block row 0
    let p = canvas.get_pixel(0, 2);
    assert_eq!((p.r, p.g, p.b, p.a), (1, 1, 1, 1));
    let q = canvas.get_pixel(0, 2 + 16);
    assert_eq!((q.r, q.g, q.b, q.a), (2, 2, 2, 2));
    // base height 1 + 1 + 32 + 1 + 1 + 1 = 37, unpadded
    assert_eq!(canvas.height, 37);
}

#[test]
fn settings_header_fixed_row() {
    let config = make_config(quad_mesh(), vec![Canvas::new(16, 16)], false, false, false)
        .unwrap();
    let header = SettingsHeader::from_config(&config).unwrap();
    let mut canvas = Canvas::new(16, 4);
    header.draw(&mut canvas);
    let p0 = canvas.get_pixel(0, 0);
    assert_eq!((p0.r, p0.g, p0.b, p0.a), (12, 34, 56, 78));
    let p1 = canvas.get_pixel(1, 0);
    assert_eq!((p1.r, p1.g, p1.b, p1.a), (0, 16, 0, 16));
}

#[test]
fn settings_header_rejects_small_texture() {
    let config = make_config(quad_mesh(), vec![Canvas::new(7, 16)], false, false, false)
        .unwrap();
    assert!(matches!(SettingsHeader::from_config(&config),
        Err(SettingsError::InvalidTextureSize)));
}

#[test]
fn face_id_header_writes_identity_pixels() {
    let mut canvas = Canvas::new(8, 4);
    create_face_uv_id_header(&mut canvas, 10);
    // face 0 at (0,1), face 8 wraps to (0,2)
    let a = canvas.get_pixel(0, 1);
    assert_eq!((a.r, a.g, a.b, a.a), (0, 0, 0, 1));
    let b = canvas.get_pixel(0, 2);
    assert_eq!((b.r, b.g, b.b, b.a), (0, 0, 0, 2));
    let c = canvas.get_pixel(7, 1);
    assert_eq!((c.r, c.g, c.b, c.a), (0, 7, 0, 1));
    // face 10 does not exist: (2,2) stays blank
    let d = canvas.get_pixel(2, 2);
    assert_eq!((d.r, d.g, d.b, d.a), (0, 0, 0, 0));
}

#[test]
fn position_row_boundary_addressing() {
    // 257 positions at width 64: 771 channels, 13 rows; the 771st channel
    // lands at column 2 of the section's last row
    let mut fo = FramedObj { vertices: Vec::new(), uvs: Vec::new(), frames: Vec::new() };
    for _ in 0..257 {
        fo.vertices.push(Position::new(
            1.0f64.to_bits(),
            0.0f64.to_bits(),
            0.0f64.to_bits(),
        ));
    }
    fo.uvs.push(Vector::new(0, 0));
    fo.frames.push(Frame { faces: Vec::new() });
    let config = make_config(fo, vec![Canvas::new(64, 64)], false, true, false).unwrap();
    let canvas = convert(config).unwrap();
    // sections: settings 1 + identity 0 + texture 64 + positions 13 + uv 1
    assert_eq!(canvas.height, 79);
    // last position's x channel: entry 256, channel 768, row 65 + 12
    let px = canvas.get_pixel(0, 77);
    assert_eq!((px.r, px.g, px.b, px.a), (129, 0, 0, 255));
    // its z channel is the 771st pixel of the section, at column 2
    let pz = canvas.get_pixel(2, 77);
    assert_eq!((pz.r, pz.g, pz.b, pz.a), (128, 0, 0, 255));
    // no pixel spills past it
    let after = canvas.get_pixel(3, 77);
    assert_eq!((after.r, after.g, after.b, after.a), (0, 0, 0, 0));
}

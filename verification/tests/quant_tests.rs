use objmc::quant::{encode_u24, quantize_position, quantize_uv};

/// The float formula the quantizer implements in exact integer form.
fn float_quant_pos(v: f64) -> u32 {
    (8388608.0 + v * 65536.0).floor() as u32
}

fn float_quant_uv(v: f32) -> u32 {
    ((v as f64) * 65536.0).floor() as u32
}

#[test]
fn quantize_position_matches_float_formula() {
    let vals: [f64; 18] = [
        0.0, 1.0, -1.0, 0.5, -0.5, 0.25, 123.456, -123.456, 100.0, -100.0, 1e-10, -1e-10,
        1.5, -1.5, 64.0, -64.0, 3.14159265358979, -2.718281828459045,
    ];
    for &v in vals.iter() {
        assert_eq!(
            quantize_position(v.to_bits()),
            float_quant_pos(v),
            "quantization differs for {}",
            v
        );
    }
}

#[test]
fn quantize_position_round_trip() {
    let vals: [f64; 9] = [0.0, 1.0, -1.0, 0.125, -7.25, 99.99, -99.99, 0.0001, -0.0001];
    for &v in vals.iter() {
        let q = quantize_position(v.to_bits());
        let decoded = (q as f64 - 8388608.0) / 65536.0;
        assert!(
            (decoded - v).abs() < 1.0 / 65536.0,
            "round trip off for {}: decoded {}",
            v,
            decoded
        );
    }
}

#[test]
fn quantize_position_zero_is_bare_bias() {
    assert_eq!(quantize_position(0.0f64.to_bits()), 8388608);
    assert_eq!(quantize_position((-0.0f64).to_bits()), 8388608);
}

#[test]
fn quantize_position_specials_saturate() {
    assert_eq!(quantize_position(f64::NAN.to_bits()), 0);
    assert_eq!(quantize_position(f64::INFINITY.to_bits()), u32::MAX);
    assert_eq!(quantize_position(f64::NEG_INFINITY.to_bits()), 0);
    // far outside the representable band
    assert_eq!(quantize_position(1.0e30f64.to_bits()), u32::MAX);
    assert_eq!(quantize_position((-1.0e30f64).to_bits()), 0);
    // subnormal magnitudes floor to the bias
    assert_eq!(quantize_position(f64::MIN_POSITIVE.to_bits()), 8388608);
}

#[test]
fn quantize_uv_matches_float_formula() {
    let vals: [f32; 10] = [0.0, 1.0, 0.5, 0.25, 0.75, 0.125, 16.0, 0.999, 123.456, 0.0001];
    for &v in vals.iter() {
        assert_eq!(quantize_uv(v.to_bits()), float_quant_uv(v), "uv differs for {}", v);
    }
}

#[test]
fn quantize_uv_round_trip() {
    let vals: [f32; 6] = [0.0, 1.0, 0.5, 0.33, 0.66, 15.99];
    for &v in vals.iter() {
        let q = quantize_uv(v.to_bits());
        let decoded = (q as f64) / 65536.0;
        assert!(
            (decoded - v as f64).abs() < 1.0 / 65536.0,
            "uv round trip off for {}: decoded {}",
            v,
            decoded
        );
    }
}

#[test]
fn quantize_uv_negative_and_specials() {
    assert_eq!(quantize_uv((-0.5f32).to_bits()), 0);
    assert_eq!(quantize_uv((-0.0000001f32).to_bits()), 0);
    assert_eq!(quantize_uv((-100.0f32).to_bits()), 0);
    assert_eq!(quantize_uv(f32::NAN.to_bits()), 0);
    assert_eq!(quantize_uv(f32::INFINITY.to_bits()), u32::MAX);
    assert_eq!(quantize_uv(f32::NEG_INFINITY.to_bits()), 0);
    // 2^16 * 2^16 = 2^32 saturates
    assert_eq!(quantize_uv(65536.0f32.to_bits()), u32::MAX);
}

#[test]
fn u24_big_endian_packing() {
    let p = encode_u24(0x123456);
    assert_eq!((p.r, p.g, p.b, p.a), (0x12, 0x34, 0x56, 255));
    let q = encode_u24(5);
    assert_eq!((q.r, q.g, q.b, q.a), (0, 0, 5, 255));
    // only the low 24 bits are packed
    let r = encode_u24(0xFF00_0001);
    assert_eq!((r.r, r.g, r.b, r.a), (0, 0, 1, 255));
}

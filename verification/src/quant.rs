use vstd::prelude::*;
use vstd::arithmetic::power2::{
    pow2, lemma2_to64, lemma2_to64_rest, lemma_pow2_adds, lemma_pow2_pos,
    lemma_pow2_strictly_increases,
};
use vstd::arithmetic::div_mod::{
    lemma_fundamental_div_mod, lemma_fundamental_div_mod_converse, lemma_mod_breakdown,
    lemma_small_mod,
};
use crate::canvas::Rgba;

verus! {

// Positions travel through the pipeline as raw IEEE 754 binary64 bit
// patterns and UV coordinates as binary32 bit patterns: the format's
// deduplication rule is bit-exact, and the fixed-point quantization below is
// an exact integer computation on the fields of those patterns.

/// Sign bit of a binary64 pattern.
pub open spec fn dbl_sign(b: u64) -> bool {
    b / 0x8000_0000_0000_0000 == 1
}

/// Biased exponent field (11 bits) of a binary64 pattern.
pub open spec fn dbl_exp(b: u64) -> u64 {
    (b / 0x10_0000_0000_0000) % 0x800
}

/// Fraction field (52 bits) of a binary64 pattern.
pub open spec fn dbl_frac(b: u64) -> u64 {
    b % 0x10_0000_0000_0000
}

/// Full significand: the fraction with the implied leading bit when the
/// number is normal.  A finite pattern's magnitude is
/// `dbl_mant(b) * 2^(dbl_e(b) - 1075)`.
pub open spec fn dbl_mant(b: u64) -> u64 {
    if dbl_exp(b) == 0 {
        dbl_frac(b)
    } else {
        (dbl_frac(b) + 0x10_0000_0000_0000) as u64
    }
}

/// Effective exponent field: subnormals share the exponent of the smallest
/// normal numbers.
pub open spec fn dbl_e(b: u64) -> u64 {
    if dbl_exp(b) == 0 {
        1
    } else {
        dbl_exp(b)
    }
}

/// A binary64 pattern encodes a finite number (not NaN or an infinity).
pub open spec fn dbl_finite(b: u64) -> bool {
    dbl_exp(b) != 0x7FF
}

/// Position quantization: the axis value `v` encoded by `b` maps to
/// `floor(2^23 + v * 2^16)`, saturated into `[0, u32::MAX]` (NaN maps to 0),
/// exactly as a float-to-`u32` conversion of that expression would saturate.
/// Since `v * 2^16 = (+/-) dbl_mant(b) * 2^(dbl_e(b) - 1059)`, the floor is
/// an exact integer division by a power of two.
pub open spec fn quantize_pos_spec(b: u64) -> u32 {
    if !dbl_finite(b) {
        if dbl_frac(b) != 0 {
            0  // NaN
        } else if dbl_sign(b) {
            0  // -infinity
        } else {
            u32::MAX  // +infinity
        }
    } else if dbl_mant(b) == 0 {
        0x80_0000u32  // +/- zero: the bare bias
    } else if dbl_e(b) >= 1059 {
        // magnitude at least 2^52: far outside the representable band
        if dbl_sign(b) {
            0
        } else {
            u32::MAX
        }
    } else {
        let p = pow2((1059 - dbl_e(b)) as nat) as int;
        if dbl_sign(b) {
            // floor(2^23 - m/p) == 2^23 - ceil(m/p)
            let c = (dbl_mant(b) + p - 1) / p;
            if c >= 0x80_0000 {
                0
            } else {
                (0x80_0000 - c) as u32
            }
        } else {
            let q = 0x80_0000 + dbl_mant(b) as int / p;
            if q >= 0x1_0000_0000 {
                u32::MAX
            } else {
                q as u32
            }
        }
    }
}

/// Sign bit of a binary32 pattern.
pub open spec fn flt_sign(b: u32) -> bool {
    b / 0x8000_0000 == 1
}

/// Biased exponent field (8 bits) of a binary32 pattern.
pub open spec fn flt_exp(b: u32) -> u32 {
    (b / 0x80_0000) % 0x100
}

/// Fraction field (23 bits) of a binary32 pattern.
pub open spec fn flt_frac(b: u32) -> u32 {
    b % 0x80_0000
}

/// Full significand of a binary32 pattern; the magnitude is
/// `flt_mant(b) * 2^(flt_e(b) - 150)`.
pub open spec fn flt_mant(b: u32) -> u32 {
    if flt_exp(b) == 0 {
        flt_frac(b)
    } else {
        (flt_frac(b) + 0x80_0000) as u32
    }
}

/// Effective exponent field of a binary32 pattern.
pub open spec fn flt_e(b: u32) -> u32 {
    if flt_exp(b) == 0 {
        1
    } else {
        flt_exp(b)
    }
}

/// A binary32 pattern encodes a finite number.
pub open spec fn flt_finite(b: u32) -> bool {
    flt_exp(b) != 0xFF
}

/// UV quantization: the value `v` encoded by `b` maps to `floor(v * 2^16)`
/// without any bias, saturated into `[0, u32::MAX]`; every negative value
/// (and NaN) saturates to 0.  `v * 2^16 = (+/-) flt_mant(b) *
/// 2^(flt_e(b) - 134)` exactly.
pub open spec fn quantize_uv_spec(b: u32) -> u32 {
    if !flt_finite(b) {
        if flt_frac(b) != 0 {
            0  // NaN
        } else if flt_sign(b) {
            0  // -infinity
        } else {
            u32::MAX  // +infinity
        }
    } else if flt_mant(b) == 0 {
        0
    } else if flt_sign(b) {
        0  // negative: the floor is negative and saturates to 0
    } else if flt_e(b) >= 134 {
        let m = flt_mant(b) as int * pow2((flt_e(b) - 134) as nat) as int;
        if m >= 0x1_0000_0000 {
            u32::MAX
        } else {
            m as u32
        }
    } else {
        (flt_mant(b) as int / pow2((134 - flt_e(b)) as nat) as int) as u32
    }
}

/// 2^sh as a machine word.
fn pow2_u64(sh: u64) -> (p: u64)
    requires
        sh <= 63,
    ensures
        p as nat == pow2(sh as nat),
        p >= 1,
{
    let mut p: u64 = 1;
    let mut k: u64 = 0;
    proof {
        lemma2_to64();
        lemma2_to64_rest();
    }
    while k < sh
        invariant
            k <= sh,
            sh <= 63,
            p as nat == pow2(k as nat),
            pow2(63) == 0x8000_0000_0000_0000,
        decreases sh - k,
    {
        proof {
            if (k as nat) < 63 {
                lemma_pow2_strictly_increases(k as nat, 63);
            }
        }
        p = p * 2;
        k = k + 1;
        proof {
            lemma_pow2_adds((k - 1) as nat, 1);
            lemma2_to64();
        }
    }
    p
}

/// Quantize one position axis, handed as the raw bit pattern of the
/// axis value: `floor(2^23 + v * 2^16)` saturated into a `u32`.
pub fn quantize_position(bits: u64) -> (q: u32)
    ensures
        q == quantize_pos_spec(bits),
{
    let exp: u64 = (bits / 0x10_0000_0000_0000) % 0x800;
    let frac: u64 = bits % 0x10_0000_0000_0000;
    let neg: bool = bits / 0x8000_0000_0000_0000 == 1;
    if exp == 0x7FF {
        if frac != 0 || neg {
            0
        } else {
            u32::MAX
        }
    } else {
        let mant: u64 = if exp == 0 {
            frac
        } else {
            frac + 0x10_0000_0000_0000
        };
        let e: u64 = if exp == 0 {
            1
        } else {
            exp
        };
        if mant == 0 {
            0x80_0000u32
        } else if e >= 1059 {
            if neg {
                0
            } else {
                u32::MAX
            }
        } else {
            let sh: u64 = 1059 - e;
            if sh >= 53 {
                // 2^sh exceeds any significand: the magnitude is below 1
                proof {
                    lemma2_to64_rest();
                    if sh > 53 {
                        lemma_pow2_strictly_increases(53, sh as nat);
                    }
                    let p = pow2(sh as nat) as int;
                    lemma_pow2_pos(sh as nat);
                    lemma_fundamental_div_mod_converse(mant as int, p, 0, mant as int);
                    lemma_fundamental_div_mod_converse(
                        mant as int + p - 1,
                        p,
                        1,
                        mant as int - 1,
                    );
                }
                if neg {
                    0x80_0000u32 - 1
                } else {
                    0x80_0000u32
                }
            } else {
                let p: u64 = pow2_u64(sh);
                proof {
                    lemma2_to64_rest();
                    if (sh as nat) < 53 {
                        lemma_pow2_strictly_increases(sh as nat, 53);
                    }
                }
                if neg {
                    let c: u64 = (mant + p - 1) / p;
                    if c >= 0x80_0000 {
                        0
                    } else {
                        0x80_0000u32 - (c as u32)
                    }
                } else {
                    let q64: u64 = 0x80_0000 + mant / p;
                    if q64 >= 0x1_0000_0000 {
                        u32::MAX
                    } else {
                        q64 as u32
                    }
                }
            }
        }
    }
}

/// Quantize one UV axis, handed as the raw bit pattern of the axis value:
/// `floor(v * 2^16)` saturated into a `u32` (negatives and NaN to 0).
pub fn quantize_uv(bits: u32) -> (q: u32)
    ensures
        q == quantize_uv_spec(bits),
{
    let exp: u32 = (bits / 0x80_0000) % 0x100;
    let frac: u32 = bits % 0x80_0000;
    let neg: bool = bits / 0x8000_0000 == 1;
    if exp == 0xFF {
        if frac != 0 || neg {
            0
        } else {
            u32::MAX
        }
    } else {
        let mant: u32 = if exp == 0 {
            frac
        } else {
            frac + 0x80_0000
        };
        let e: u32 = if exp == 0 {
            1
        } else {
            exp
        };
        if mant == 0 || neg {
            0
        } else if e >= 134 {
            let ee: u64 = (e - 134) as u64;
            if ee >= 9 {
                // at least 2^23 * 2^9 = 2^32: saturate
                proof {
                    let pe = pow2(ee as nat);
                    if ee > 9 {
                        lemma_pow2_strictly_increases(9, ee as nat);
                    }
                    lemma2_to64();
                    assert(mant as int * pe as int >= 0x1_0000_0000) by (nonlinear_arith)
                        requires
                            mant >= 0x80_0000,
                            pe >= 0x200,
                    ;
                }
                u32::MAX
            } else {
                let pe: u64 = pow2_u64(ee);
                proof {
                    lemma2_to64();
                    if ee < 8 {
                        lemma_pow2_strictly_increases(ee as nat, 8);
                    }
                    assert((mant as int * pe as int) < 0x1_0000_0000) by (nonlinear_arith)
                        requires
                            mant < 0x100_0000,
                            pe <= 0x100,
                    ;
                }
                let m: u64 = (mant as u64) * pe;
                m as u32
            }
        } else {
            let sh: u64 = (134 - e) as u64;
            if sh >= 24 {
                proof {
                    lemma2_to64();
                    if sh > 24 {
                        lemma_pow2_strictly_increases(24, sh as nat);
                    }
                    let p = pow2(sh as nat) as int;
                    lemma_pow2_pos(sh as nat);
                    lemma_fundamental_div_mod_converse(mant as int, p, 0, mant as int);
                }
                0
            } else {
                let p: u64 = pow2_u64(sh);
                ((mant as u64) / p) as u32
            }
        }
    }
}

/// The round-trip law for position quantization: for a finite, nonzero
/// axis value inside the representable band, the quantized `q` satisfies
/// `q - 2^23 <= v * 2^16 < q - 2^23 + 1`, stated exactly over the integer
/// scaled value `sv = (+/-) dbl_mant(b)` and the power of two `p` with
/// `v * 2^16 = sv / p`.  Hence decoding `q` as `(q - 2^23) / 2^16`
/// reconstructs `v` within `1 / 2^16`.
pub proof fn lemma_quantize_pos_round_trip(b: u64)
    requires
        dbl_finite(b),
        dbl_mant(b) > 0,
        dbl_e(b) < 1059,
        dbl_sign(b) ==> dbl_mant(b) <= 0x80_0000 * pow2((1059 - dbl_e(b)) as nat),
        !dbl_sign(b) ==> dbl_mant(b) < 0xFF80_0000 * pow2((1059 - dbl_e(b)) as nat),
    ensures
        ({
            let p = pow2((1059 - dbl_e(b)) as nat) as int;
            let q = quantize_pos_spec(b) as int;
            let sv: int = if dbl_sign(b) {
                -(dbl_mant(b) as int)
            } else {
                dbl_mant(b) as int
            };
            (q - 0x80_0000) * p <= sv && sv < (q - 0x80_0000 + 1) * p
        }),
{
    let p = pow2((1059 - dbl_e(b)) as nat) as int;
    let m = dbl_mant(b) as int;
    lemma_pow2_pos((1059 - dbl_e(b)) as nat);
    lemma_fundamental_div_mod(m, p);
    if dbl_sign(b) {
        let c = (m + p - 1) / p;
        lemma_fundamental_div_mod(m + p - 1, p);
        // (c - 1) * p < m <= c * p
        assert((c - 1) * p < m && m <= c * p) by (nonlinear_arith)
            requires
                p > 0,
                m > 0,
                m + p - 1 == p * c + (m + p - 1) % p,
                0 <= (m + p - 1) % p < p,
        ;
        // no saturation: c <= 2^23
        assert(c <= 0x80_0000) by (nonlinear_arith)
            requires
                p > 0,
                (c - 1) * p < m,
                m <= 0x80_0000 * p,
        ;
        let q = quantize_pos_spec(b) as int;
        assert(q == 0x80_0000 - c);
        assert((q - 0x80_0000) * p <= -m && -m < (q - 0x80_0000 + 1) * p) by (nonlinear_arith)
            requires
                q == 0x80_0000 - c,
                (c - 1) * p < m,
                m <= c * p,
        ;
    } else {
        let d = m / p;
        // d * p <= m < (d + 1) * p
        assert(d * p <= m && m < (d + 1) * p) by (nonlinear_arith)
            requires
                p > 0,
                m == p * d + m % p,
                0 <= m % p < p,
        ;
        // no saturation: 2^23 + d < 2^32
        assert(d < 0xFF80_0000) by (nonlinear_arith)
            requires
                p > 0,
                d * p <= m,
                m < 0xFF80_0000 * p,
        ;
        let q = quantize_pos_spec(b) as int;
        assert(q == 0x80_0000 + d);
    }
}

/// The round-trip law for UV quantization: for a finite, positive UV value
/// below 2^16, the quantized `q` satisfies `q <= v * 2^16 < q + 1`, stated
/// exactly over `flt_mant(b)` and the power of two `p` with
/// `v * 2^16 = flt_mant(b) / p`.  Hence decoding `q` as `q / 2^16`
/// reconstructs `v` within `1 / 2^16`.
pub proof fn lemma_quantize_uv_round_trip(b: u32)
    requires
        flt_finite(b),
        !flt_sign(b),
        flt_mant(b) > 0,
        flt_e(b) < 134,
    ensures
        ({
            let p = pow2((134 - flt_e(b)) as nat) as int;
            let q = quantize_uv_spec(b) as int;
            q * p <= flt_mant(b) as int && (flt_mant(b) as int) < (q + 1) * p
        }),
{
    let p = pow2((134 - flt_e(b)) as nat) as int;
    let m = flt_mant(b) as int;
    lemma_pow2_pos((134 - flt_e(b)) as nat);
    lemma_fundamental_div_mod(m, p);
    let q = quantize_uv_spec(b) as int;
    assert(q == m / p);
    assert(q * p <= m && m < (q + 1) * p) by (nonlinear_arith)
        requires
            p > 0,
            m == p * q + m % p,
            0 <= m % p < p,
    ;
}

/// Byte 2 (bits 16..24) of a 24-bit big-endian value.
pub open spec fn u24_byte2(q: u32) -> u8 {
    ((q / 0x1_0000) % 0x100) as u8
}

/// Byte 1 (bits 8..16) of a 24-bit big-endian value.
pub open spec fn u24_byte1(q: u32) -> u8 {
    ((q / 0x100) % 0x100) as u8
}

/// Byte 0 (bits 0..8) of a 24-bit big-endian value.
pub open spec fn u24_byte0(q: u32) -> u8 {
    (q % 0x100) as u8
}

/// A quantized value packed big-endian into the RGB channels, alpha 255.
pub open spec fn u24_rgba(q: u32) -> Rgba {
    Rgba { r: u24_byte2(q), g: u24_byte1(q), b: u24_byte0(q), a: 255 }
}

/// Pack the low 24 bits of `q` big-endian into one RGB pixel, alpha 255.
pub fn encode_u24(q: u32) -> (p: Rgba)
    ensures
        p == u24_rgba(q),
{
    Rgba {
        r: ((q / 0x1_0000) % 0x100) as u8,
        g: ((q / 0x100) % 0x100) as u8,
        b: (q % 0x100) as u8,
        a: 255,
    }
}

/// The three packed bytes reassemble to the packed value whenever it fits
/// in 24 bits.
pub proof fn lemma_u24_reconstruct(q: u32)
    requires
        q < 0x100_0000,
    ensures
        u24_byte2(q) as int * 0x1_0000 + u24_byte1(q) as int * 0x100 + u24_byte0(q) as int
            == q as int,
{
    lemma_fundamental_div_mod(q as int, 0x1_0000);
    lemma_small_mod((q as int / 0x1_0000) as nat, 0x100);
    lemma_mod_breakdown(q as int, 0x100, 0x100);
}

} // verus!

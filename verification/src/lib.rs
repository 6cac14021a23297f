//! Bakes a (possibly multi-frame) mesh and its textures into one RGBA
//! canvas that embeds all geometry, animation parameters and render
//! configuration as pixel data, for a consumer shader that never sees the
//! original mesh.  The loader deduplicates positions and UV coordinates
//! bit-exactly into shared pools; the layout engine stacks the encoded
//! sections (settings, identity, texture copies, quantized position and
//! UV data, vertex indices) with exact row bookkeeping and optional
//! power-of-two height padding.

pub mod canvas;
pub mod convert;
pub mod obj;
pub mod quant;

use vstd::prelude::*;
use vstd::arithmetic::power2::pow2;
use vstd::arithmetic::div_mod::lemma_fundamental_div_mod;

verus! {

/// Integer ceiling division: the least `r` with `r * d >= n`.  Every
/// section of the output canvas computes its row count this way: a partial
/// row still occupies a whole row.
pub open spec fn ceil_div(n: nat, d: nat) -> nat
    recommends
        d > 0,
{
    ((n + d - 1) / d as int) as nat
}

/// `ceil_div` rounds up exactly: the rows it counts cover all `n` pixels,
/// and all but fewer than `d` cells of the last counted row are used.
pub proof fn lemma_ceil_div_exact(n: nat, d: nat)
    requires
        d > 0,
    ensures
        ceil_div(n, d) * d >= n,
        ceil_div(n, d) * d < n + d,
        n > 0 ==> (ceil_div(n, d) - 1) * d < n,
        n == 0 ==> ceil_div(n, d) == 0,
{
    let c = ceil_div(n, d) as int;
    lemma_fundamental_div_mod(n as int + d - 1, d as int);
    assert(c * d >= n && c * d < n + d && (n > 0 ==> (c - 1) * d < n)) by (nonlinear_arith)
        requires
            d > 0,
            n as int + d - 1 == d * c + (n as int + d - 1) % (d as int),
            0 <= (n as int + d - 1) % (d as int) < d,
    ;
    if n == 0 {
        assert(c == 0) by (nonlinear_arith)
            requires
                d > 0,
                0 <= c,
                c * d < 0 + d,
        ;
    }
}

/// `ceil_div` agrees with the quotient-plus-remainder form used by the
/// row-count computations.
pub proof fn lemma_ceil_div_form(n: nat, d: nat)
    requires
        d > 0,
    ensures
        ceil_div(n, d) == n / d + (if n % d == 0 { 0 as int } else { 1 }),
{
    let q = n as int / d as int;
    let r = n as int % d as int;
    lemma_fundamental_div_mod(n as int, d as int);
    if r == 0 {
        vstd::arithmetic::div_mod::lemma_fundamental_div_mod_converse(
            n as int + d - 1,
            d as int,
            q,
            d as int - 1,
        );
    } else {
        assert(n as int + d - 1 == d as int * (q + 1) + (r - 1)) by (nonlinear_arith)
            requires
                n as int == d as int * q + r,
        ;
        vstd::arithmetic::div_mod::lemma_fundamental_div_mod_converse(
            n as int + d - 1,
            d as int,
            q + 1,
            r - 1,
        );
    }
}

/// Integer ceiling division on machine words.
pub fn ceil_div_u64(n: u64, d: u64) -> (r: u64)
    requires
        d > 0,
        n <= u64::MAX - d,
    ensures
        r as nat == ceil_div(n as nat, d as nat),
{
    (n + d - 1) / d
}

/// The number of canvas rows a section of `count` pixels occupies.
pub fn rows_for(count: u64, width: u32) -> (r: u32)
    requires
        width > 0,
        count <= u32::MAX,
    ensures
        r as nat == ceil_div(count as nat, width as nat),
{
    let r64: u64 = (count + width as u64 - 1) / width as u64;
    proof {
        lemma_ceil_div_exact(count as nat, width as nat);
        assert(r64 <= u32::MAX) by (nonlinear_arith)
            requires
                width >= 1,
                count <= u32::MAX,
                r64 >= 0,
                r64 as nat == ceil_div(count as nat, width as nat),
                (ceil_div(count as nat, width as nat) * width as nat) < count as nat + width as nat,
        ;
    }
    r64 as u32
}

/// The smallest power of two that is at least `h` (and at least 1).
pub open spec fn next_pow2_from(h: nat, p: nat) -> nat
    recommends
        p >= 1,
    decreases (if p < h { h - p } else { 0 }) when p >= 1
{
    if p >= h {
        p
    } else {
        next_pow2_from(h, 2 * p)
    }
}

/// The smallest power of two that is at least `h`.
pub open spec fn next_pow2(h: nat) -> nat {
    next_pow2_from(h, 1)
}

proof fn lemma_next_pow2_from(h: nat, p: nat, k: nat)
    requires
        h >= 1,
        p == pow2(k),
        p < 2 * h,
    ensures
        next_pow2_from(h, p) >= h,
        next_pow2_from(h, p) >= p,
        next_pow2_from(h, p) < 2 * h,
        exists|j: nat| next_pow2_from(h, p) == pow2(j),
    decreases (if p < h { h - p } else { 0 }),
{
    vstd::arithmetic::power2::lemma_pow2_pos(k);
    if p >= h {
        assert(next_pow2_from(h, p) == pow2(k));
    } else {
        assert(2 * p == pow2(k + 1)) by {
            vstd::arithmetic::power2::lemma_pow2_adds(k, 1);
            vstd::arithmetic::power2::lemma2_to64();
        }
        lemma_next_pow2_from(h, 2 * p, k + 1);
    }
}

/// `next_pow2(h)` is a power of two, is at least `h`, and is the least
/// such: it stays below `2 * h`, so a height that already is a power of
/// two is left unchanged.
pub proof fn lemma_next_pow2_props(h: nat)
    requires
        h >= 1,
    ensures
        next_pow2(h) >= h,
        next_pow2(h) < 2 * h,
        exists|j: nat| next_pow2(h) == pow2(j),
{
    vstd::arithmetic::power2::lemma2_to64();
    lemma_next_pow2_from(h, 1, 0);
}

/// The smallest power of two at least `h`, on machine words.
pub fn next_power_of_two(h: u32) -> (r: u32)
    requires
        1 <= h,
        h <= 0x8000_0000,
    ensures
        r as nat == next_pow2(h as nat),
        r >= h,
        (r as nat) < 2 * h as nat,
        exists|j: nat| r as nat == pow2(j),
{
    proof {
        lemma_next_pow2_props(h as nat);
    }
    let mut p: u32 = 1;
    while p < h
        invariant
            1 <= p,
            next_pow2_from(h as nat, p as nat) == next_pow2(h as nat),
            h <= 0x8000_0000,
        decreases (if p < h { h - p } else { 0 }),
    {
        proof {
            assert(next_pow2_from(h as nat, p as nat) == next_pow2_from(h as nat, 2 * p as nat));
        }
        p = p * 2;
    }
    proof {
        lemma_next_pow2_props(h as nat);
    }
    p
}

} // verus!

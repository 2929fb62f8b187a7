//! Fixed-point scalars and the small amount of vector algebra the
//! collision queries need.
//!
//! Every geometric quantity in this crate (coordinates, plane distances,
//! ray parameters, texture coordinates) is a signed fixed-point number
//! with [`SCALE`] (2^16) units per 1.0.  Products and quotients truncate
//! toward zero, mirroring the rounding of a hardware divide.  The spec
//! functions [`fmul_s`] and [`fdiv_s`] are the mathematical definitions;
//! the executable operations are proved to compute exactly those values.

use vstd::arithmetic::div_mod::{
    lemma_div_is_ordered, lemma_div_nonincreasing, lemma_div_pos_is_pos,
};
use vstd::arithmetic::mul::lemma_mul_nonnegative;
use vstd::arithmetic::power2::{
    lemma2_to64, lemma_pow2_adds, lemma_pow2_pos, lemma_pow2_strictly_increases, pow2,
};
use vstd::prelude::*;

verus! {

/// Fixed-point units per 1.0: sixteen fractional bits.
pub const SCALE: i64 = 65536;

/// Tolerance for the approximate-equality tests of the ray caster,
/// about 1.07e-4 (7 fixed-point units).  All parallel/zero checks use
/// this single constant.
pub const EPSILON: i64 = 7;

/// Largest magnitude a coordinate, plane distance or ray component may
/// have: 2^40 fixed-point units (about 16.8 million world units).  The
/// binary decoder saturates at this value, and every overflow argument
/// in the crate rests on it.
pub const MAX_COORD: i64 = 0x100_0000_0000;

/// Largest magnitude a plane-normal component may have: 2.0.  Plane
/// normals are documented to be unit length; the importer rejects
/// records that exceed even this loose bound.
pub const NORM_MAX: i64 = 131072;

/// Division truncating toward zero, the rounding of Rust's `/` on
/// machine integers, defined for mathematical integers.
pub open spec fn tdiv(a: int, b: int) -> int {
    if a >= 0 {
        if b >= 0 {
            a / b
        } else {
            -(a / -b)
        }
    } else {
        if b >= 0 {
            -(-a / b)
        } else {
            -a / -b
        }
    }
}

/// Fixed-point product: the real product rescaled by [`SCALE`],
/// truncated toward zero.
pub open spec fn fmul_s(a: int, b: int) -> int {
    tdiv(a * b, SCALE as int)
}

/// Fixed-point quotient: the real quotient rescaled by [`SCALE`],
/// truncated toward zero.
pub open spec fn fdiv_s(a: int, b: int) -> int {
    tdiv(a * (SCALE as int), b)
}

/// A three-component fixed-point vector.
#[derive(Clone, Copy, Debug, PartialEq, Eq, Structural)]
pub struct Vec3 {
    pub x: i64,
    pub y: i64,
    pub z: i64,
}

/// Every component of `v` lies in `[-bound, bound]`.
pub open spec fn vec3_bounded(v: Vec3, bound: int) -> bool {
    &&& -bound <= v.x <= bound
    &&& -bound <= v.y <= bound
    &&& -bound <= v.z <= bound
}

/// Fixed-point dot product: the sum of the componentwise fixed-point
/// products.
pub open spec fn dot_s(a: Vec3, b: Vec3) -> int {
    fmul_s(a.x as int, b.x as int) + fmul_s(a.y as int, b.y as int) + fmul_s(
        a.z as int,
        b.z as int,
    )
}

/// A product of numbers bounded by `ac` and `bc` is bounded by `ac * bc`.
pub proof fn lemma_mul_bound(a: int, b: int, ac: int, bc: int)
    by (nonlinear_arith)
    requires
        -ac <= a <= ac,
        -bc <= b <= bc,
        0 <= ac,
        0 <= bc,
    ensures
        -(ac * bc) <= a * b <= ac * bc,
{
}

/// Truncating division shrinks a bound: if `|a| <= cap` then
/// `|tdiv(a, b)| <= cap / b` for positive `b`.
pub proof fn lemma_tdiv_bound(a: int, b: int, cap: int)
    requires
        -cap <= a <= cap,
        0 <= cap,
        b >= 1,
    ensures
        -(cap / b) <= tdiv(a, b) <= cap / b,
{
    lemma_div_pos_is_pos(cap, b);
    if a >= 0 {
        lemma_div_pos_is_pos(a, b);
        lemma_div_is_ordered(a, cap, b);
    } else {
        lemma_div_pos_is_pos(-a, b);
        lemma_div_is_ordered(-a, cap, b);
    }
}

/// Truncating division is odd in its dividend.
pub proof fn lemma_tdiv_neg(a: int, b: int)
    requires
        b >= 1,
    ensures
        tdiv(-a, b) == -tdiv(a, b),
{
    if a == 0 {
        vstd::arithmetic::div_mod::lemma_basic_div(0, b);
    }
}

/// Bounds for a fixed-point product from bounds on its factors.
pub proof fn lemma_fmul_bound(a: int, b: int, ac: int, bc: int)
    requires
        -ac <= a <= ac,
        -bc <= b <= bc,
        0 <= ac,
        0 <= bc,
    ensures
        -(ac * bc) <= a * b <= ac * bc,
        -((ac * bc) / (SCALE as int)) <= fmul_s(a, b) <= (ac * bc) / (SCALE as int),
{
    lemma_mul_bound(a, b, ac, bc);
    lemma_mul_nonnegative(ac, bc);
    lemma_tdiv_bound(a * b, SCALE as int, ac * bc);
}

/// Fixed-point multiplication.  The precondition asks only that the raw
/// product stays below 2^62, which every caller discharges from the
/// coordinate and normal bounds.
pub(crate) fn fmul(a: i64, b: i64) -> (r: i64)
    requires
        -0x4000_0000_0000_0000 <= (a as int) * (b as int) <= 0x4000_0000_0000_0000,
    ensures
        r as int == fmul_s(a as int, b as int),
{
    proof {
        lemma_mul_bound(a as int, b as int, 0x8000_0000_0000_0000, 0x8000_0000_0000_0000);
    }
    let p: i128 = (a as i128) * (b as i128);
    if p >= 0 {
        let q: u128 = (p as u128) / 65536;
        proof {
            lemma_div_pos_is_pos(p as int, 65536);
            lemma_div_is_ordered(p as int, 0x4000_0000_0000_0000, 65536);
        }
        q as i64
    } else {
        let q: u128 = ((-p) as u128) / 65536;
        proof {
            lemma_div_pos_is_pos(-(p as int), 65536);
            lemma_div_is_ordered(-(p as int), 0x4000_0000_0000_0000, 65536);
        }
        -(q as i64)
    }
}

/// Fixed-point division, used only for the time-of-impact quotient.
pub(crate) fn fdiv(a: i64, b: i64) -> (r: i64)
    requires
        b != 0,
        -0x2000_0000_0000 <= a <= 0x2000_0000_0000,
    ensures
        r as int == fdiv_s(a as int, b as int),
{
    let p: i128 = (a as i128) * 65536;
    let pa: u128 = if p >= 0 {
        p as u128
    } else {
        (-p) as u128
    };
    let ba: u128 = if b >= 0 {
        (b as i128) as u128
    } else {
        (-(b as i128)) as u128
    };
    let q: u128 = pa / ba;
    proof {
        lemma_div_pos_is_pos(pa as int, ba as int);
        lemma_div_nonincreasing(pa as int, ba as int);
    }
    if (p >= 0) == (b >= 0) {
        q as i64
    } else {
        -(q as i64)
    }
}

/// Fixed-point dot product.  The first argument is bounded by 2^42 (a
/// coordinate difference), the second by [`NORM_MAX`] (a plane normal),
/// which keeps every intermediate product below 2^62 and the result
/// below 2^45.
pub(crate) fn dot(a: &Vec3, b: &Vec3) -> (r: i64)
    requires
        vec3_bounded(*a, 0x400_0000_0000),
        vec3_bounded(*b, NORM_MAX as int),
    ensures
        r as int == dot_s(*a, *b),
        -0x2000_0000_0000 <= r <= 0x2000_0000_0000,
{
    proof {
        lemma_fmul_bound(a.x as int, b.x as int, 0x400_0000_0000, NORM_MAX as int);
        lemma_fmul_bound(a.y as int, b.y as int, 0x400_0000_0000, NORM_MAX as int);
        lemma_fmul_bound(a.z as int, b.z as int, 0x400_0000_0000, NORM_MAX as int);
    }
    let tx: i64 = fmul(a.x, b.x);
    let ty: i64 = fmul(a.y, b.y);
    let tz: i64 = fmul(a.z, b.z);
    tx + ty + tz
}

/// The fixed-point magnitude encoded by a biased exponent `e` and a
/// 23-bit mantissa `m`, saturating at [`MAX_COORD`].  Subnormal values
/// are below one fixed-point unit and truncate to zero; infinities and
/// NaNs (`e == 255`) saturate.
#[verifier::opaque]
pub open spec fn fixed_mag(e: int, m: int) -> int {
    if e == 0 {
        0
    } else if e >= 151 {
        MAX_COORD as int
    } else if e >= 134 {
        (m + 0x80_0000) * pow2((e - 134) as nat)
    } else {
        (m + 0x80_0000) / pow2((134 - e) as nat) as int
    }
}

/// The fixed-point value encoded by an IEEE-754 single-precision bit
/// pattern, saturating at `±`[`MAX_COORD`].
#[verifier::opaque]
pub open spec fn fixed_of_bits(u: int) -> int {
    let s = u / 0x8000_0000;
    let e = (u / 0x80_0000) % 0x100;
    let m = u % 0x80_0000;
    if s == 1 {
        -fixed_mag(e, m)
    } else {
        fixed_mag(e, m)
    }
}

/// 2^k as a machine integer.
pub(crate) fn pow2_u64(k: u64) -> (r: u64)
    requires
        k <= 32,
    ensures
        r as int == pow2(k as nat),
        r >= 1,
{
    let mut i: u64 = 0;
    let mut r: u64 = 1;
    proof {
        lemma2_to64();
    }
    while i < k
        invariant
            i <= k <= 32,
            r as int == pow2(i as nat),
            1 <= r <= 0x1_0000_0000u64,
        decreases k - i,
    {
        proof {
            lemma_pow2_adds(i as nat, 1);
            if i < 31 {
                lemma_pow2_strictly_increases(i as nat, 31);
            }
            lemma2_to64();
        }
        r = r * 2;
        i = i + 1;
    }
    r
}

/// Decodes an IEEE-754 single-precision bit pattern into a fixed-point
/// value, truncating toward zero and saturating at `±`[`MAX_COORD`].
/// This is the arithmetic meaning of the 4-byte float fields of the map
/// format, computed exactly on the bit pattern.
pub fn fixed_from_bits(bits: u32) -> (r: i64)
    ensures
        r as int == fixed_of_bits(bits as int),
        -MAX_COORD <= r <= MAX_COORD,
{
    proof {
        reveal(fixed_of_bits);
        reveal(fixed_mag);
    }
    let s: u32 = bits / 0x8000_0000;
    let e: u32 = (bits / 0x80_0000) % 0x100;
    let m: u32 = bits % 0x80_0000;
    let mag: i64 = if e == 0 {
        0
    } else if e >= 151 {
        MAX_COORD
    } else if e >= 134 {
        let p: u64 = pow2_u64((e - 134) as u64);
        let mf: u64 = (m as u64) + 0x80_0000;
        proof {
            if e < 150 {
                lemma_pow2_strictly_increases((e - 134) as nat, 16);
            }
            lemma2_to64();
            lemma_mul_bound(mf as int, p as int, 0x100_0000, 0x1_0000);
        }
        (mf * p) as i64
    } else if e >= 111 {
        let p: u64 = pow2_u64((134 - e) as u64);
        let mf: u64 = (m as u64) + 0x80_0000;
        proof {
            lemma_div_pos_is_pos(mf as int, p as int);
            lemma_div_nonincreasing(mf as int, p as int);
        }
        (mf / p) as i64
    } else {
        proof {
            if e < 110 {
                lemma_pow2_strictly_increases(24, (134 - e) as nat);
            }
            lemma2_to64();
            lemma_pow2_pos((134 - e) as nat);
            vstd::arithmetic::div_mod::lemma_basic_div((m + 0x80_0000) as int, pow2(
                (134 - e) as nat,
            ) as int);
        }
        0
    };
    if s == 1 {
        -mag
    } else {
        mag
    }
}

} // verus!

//! Fixed-point numbers.
//!
//! Every real quantity of this crate (a distance, a coordinate of a colour
//! space) is held as an integer that counts multiples of 2^-16, so that it can
//! be compared, added and proved about exactly. This module holds the unit,
//! the integer square root, and the reading of an IEEE 754 single-precision
//! bit pattern as such a number.
use vstd::prelude::*;
use vstd::arithmetic::div_mod::lemma_basic_div;
use vstd::arithmetic::power2::{lemma2_to64, lemma_pow2_pos, lemma_pow2_strictly_increases, pow2};
use vstd::bits::{lemma_u64_shl_is_mul, lemma_u64_shr_is_div};

verus! {

/// The fixed-point representation of 1.
pub const ONE: u64 = 65536;

/// The largest magnitude that a bit pattern is read as: 32768 in fixed point.
pub const LIMIT: u64 = 0x8000_0000;

/// `r` is the integer part of the square root of `n`.
pub open spec fn is_floor_sqrt(n: int, r: int) -> bool {
    0 <= r && r * r <= n && n < (r + 1) * (r + 1)
}

/// The integer part of the square root of `n`.
pub open spec fn floor_sqrt(n: int) -> int {
    choose|r: int| is_floor_sqrt(n, r)
}

/// A number has at most one integer square root.
pub proof fn lemma_floor_sqrt_unique(n: int, r1: int, r2: int)
    requires
        is_floor_sqrt(n, r1),
        is_floor_sqrt(n, r2),
    ensures
        r1 == r2,
{
    if r1 < r2 {
        assert((r1 + 1) * (r1 + 1) <= r2 * r2) by (nonlinear_arith)
            requires
                0 <= r1,
                r1 + 1 <= r2,
        ;
    } else if r2 < r1 {
        assert((r2 + 1) * (r2 + 1) <= r1 * r1) by (nonlinear_arith)
            requires
                0 <= r2,
                r2 + 1 <= r1,
        ;
    }
}

/// Whoever holds an integer square root of `n` holds `floor_sqrt(n)`.
pub proof fn lemma_floor_sqrt_is(n: int, r: int)
    requires
        is_floor_sqrt(n, r),
    ensures
        floor_sqrt(n) == r,
{
    lemma_floor_sqrt_unique(n, floor_sqrt(n), r);
}

/// The integer part of the square root of `n`, found by bisection.
pub fn isqrt(n: u128) -> (r: u64)
    ensures
        is_floor_sqrt(n as int, r as int),
        r as int == floor_sqrt(n as int),
{
    let mut lo: u128 = 0;
    let mut hi: u128 = 0x1_0000_0000_0000_0000;
    assert(n < hi * hi) by (nonlinear_arith)
        requires
            hi == 0x1_0000_0000_0000_0000,
            n <= u128::MAX,
    ;
    while hi - lo > 1
        invariant
            lo < hi <= 0x1_0000_0000_0000_0000,
            lo * lo <= n,
            n < hi * hi,
        decreases hi - lo,
    {
        let mid: u128 = lo + (hi - lo) / 2;
        assert(mid * mid <= u128::MAX) by (nonlinear_arith)
            requires
                mid < 0x1_0000_0000_0000_0000,
        ;
        if mid * mid <= n {
            lo = mid;
        } else {
            hi = mid;
        }
    }
    proof {
        lemma_floor_sqrt_is(n as int, lo as int);
    }
    lo as u64
}

/// The exponent field of a single-precision bit pattern.
pub open spec fn exponent_field(bits: u32) -> int {
    (bits as int / 0x80_0000) % 256
}

/// The fraction field of a single-precision bit pattern.
pub open spec fn fraction_field(bits: u32) -> int {
    bits as int % 0x80_0000
}

/// The sign bit of a single-precision bit pattern.
pub open spec fn sign_bit(bits: u32) -> bool {
    bits >= 0x8000_0000
}

/// The pattern is a NaN.
pub open spec fn is_nan(bits: u32) -> bool {
    exponent_field(bits) == 255 && fraction_field(bits) != 0
}

/// The pattern is an infinity.
pub open spec fn is_infinite(bits: u32) -> bool {
    exponent_field(bits) == 255 && fraction_field(bits) == 0
}

/// The integer `m` of a finite pattern, whose magnitude is `m * 2^(e - 150)`.
pub open spec fn significand(bits: u32) -> int {
    if exponent_field(bits) == 0 {
        fraction_field(bits)
    } else {
        fraction_field(bits) + 0x80_0000
    }
}

/// The integer `e` of a finite pattern, whose magnitude is `m * 2^(e - 150)`.
pub open spec fn scale(bits: u32) -> int {
    if exponent_field(bits) == 0 {
        1
    } else {
        exponent_field(bits)
    }
}

/// The magnitude of a finite pattern in fixed point, rounded down:
/// the integer part of `m * 2^(e - 150) * 2^16`.
pub open spec fn scaled_magnitude(bits: u32) -> int {
    let e = scale(bits);
    let m = significand(bits);
    if e >= 134 {
        m * pow2((e - 134) as nat)
    } else {
        m / (pow2((134 - e) as nat) as int)
    }
}

/// The magnitude that a pattern is read as: rounded down, capped at `LIMIT`,
/// and 0 for a NaN.
pub open spec fn magnitude(bits: u32) -> int {
    if is_nan(bits) {
        0
    } else if is_infinite(bits) || scaled_magnitude(bits) > LIMIT {
        LIMIT as int
    } else {
        scaled_magnitude(bits)
    }
}

/// The signed fixed-point number that a pattern is read as.
pub open spec fn signed_value(bits: u32) -> int {
    if sign_bit(bits) {
        -magnitude(bits)
    } else {
        magnitude(bits)
    }
}

/// The distance that a pattern is read as: its value where that is positive,
/// and 0 otherwise.
pub open spec fn distance_value(bits: u32) -> int {
    if sign_bit(bits) {
        0
    } else {
        magnitude(bits)
    }
}

/// What a bit pattern is read as lies within the limit.
pub proof fn lemma_value_bounds(bits: u32)
    ensures
        0 <= magnitude(bits) <= LIMIT,
        -(LIMIT as int) <= signed_value(bits) <= LIMIT,
        0 <= distance_value(bits) <= LIMIT,
{
    let e = scale(bits);
    let m = significand(bits);
    if e >= 134 {
        let p = pow2((e - 134) as nat);
        assert(0 <= m * p) by (nonlinear_arith)
            requires
                0 <= m,
                0 <= p,
        ;
    } else {
        let p = pow2((134 - e) as nat) as int;
        lemma_pow2_pos((134 - e) as nat);
        assert(0 <= m / p) by (nonlinear_arith)
            requires
                0 <= m,
                0 < p,
        ;
    }
}

/// Reads the magnitude of a single-precision bit pattern.
pub fn magnitude_from_bits(bits: u32) -> (out: u64)
    ensures
        out as int == magnitude(bits),
        out <= LIMIT,
{
    let e: u32 = (bits / 0x80_0000) % 256;
    let f: u32 = bits % 0x80_0000;
    if e == 255 {
        if f == 0 {
            LIMIT
        } else {
            0
        }
    } else {
        let m: u64 = if e == 0 {
            f as u64
        } else {
            f as u64 + 0x80_0000
        };
        let s: u32 = if e == 0 {
            1
        } else {
            e
        };
        proof {
            lemma2_to64();
        }
        if s >= 142 {
            proof {
                let k = (s - 134) as nat;
                if k > 8 {
                    lemma_pow2_strictly_increases(8, k);
                }
                assert(m * pow2(k) >= LIMIT) by (nonlinear_arith)
                    requires
                        m >= 0x80_0000,
                        pow2(k) >= 256,
                        LIMIT == 0x8000_0000,
                ;
            }
            LIMIT
        } else if s >= 134 {
            let k: u64 = (s - 134) as u64;
            proof {
                if k < 7 {
                    lemma_pow2_strictly_increases(k as nat, 7);
                }
                assert(m * pow2(k as nat) <= LIMIT) by (nonlinear_arith)
                    requires
                        m < 0x100_0000,
                        pow2(k as nat) <= 128,
                        LIMIT == 0x8000_0000,
                ;
                lemma_u64_shl_is_mul(m, k);
            }
            m << k
        } else if s >= 110 {
            let k: u64 = (134 - s) as u64;
            proof {
                lemma_u64_shr_is_div(m, k);
                assert(m as int / (pow2(k as nat) as int) <= m) by (nonlinear_arith)
                    requires
                        pow2(k as nat) >= 1,
                        m >= 0,
                ;
            }
            m >> k
        } else {
            proof {
                let k = (134 - s) as nat;
                if k > 25 {
                    lemma_pow2_strictly_increases(25, k);
                }
                lemma_basic_div(m as int, pow2(k) as int);
            }
            0
        }
    }
}

/// Reads a single-precision bit pattern as a signed fixed-point number.
pub fn signed_from_bits(bits: u32) -> (out: i64)
    ensures
        out as int == signed_value(bits),
        -(LIMIT as int) <= out <= LIMIT as int,
{
    let m = magnitude_from_bits(bits);
    if bits >= 0x8000_0000 {
        -(m as i64)
    } else {
        m as i64
    }
}

/// Reads a single-precision bit pattern as a distance.
pub fn distance_from_bits(bits: u32) -> (out: u64)
    ensures
        out as int == distance_value(bits),
        out <= LIMIT,
{
    if bits >= 0x8000_0000 {
        0
    } else {
        magnitude_from_bits(bits)
    }
}

} // verus!

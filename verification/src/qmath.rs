//! Scalar Q-format (fixed-point) arithmetic primitives shared by the
//! decoder's transform and filterbank stages.
//!
//! All operations are stated over exact integer arithmetic: a right shift
//! is the floor of a division by a power of two, and the 64-bit
//! accumulator operations are arithmetic modulo 2^64.

use vstd::prelude::*;

verus! {

use vstd::arithmetic::power2::{pow2, lemma2_to64, lemma_pow2_pos};
use vstd::bits::{lemma_u64_shr_is_div, lemma_u32_shr_is_div, lemma_u32_shl_is_mul};
use vstd::arithmetic::div_mod::{
    lemma_fundamental_div_mod,
    lemma_fundamental_div_mod_converse_div,
    lemma_fundamental_div_mod_converse_mod,
    lemma_mod_bound,
    lemma_small_mod,
    lemma_mod_multiples_vanish,
    lemma_add_mod_noop_right,
    lemma_div_nonincreasing,
    lemma_div_is_ordered,
    lemma_div_basics,
    lemma_hoist_over_denominator,
};

/// The value of an `i32` reinterpreted as the low 32 bits of a `u64`
/// (two's complement sign extension).
pub open spec fn u64_bits_of_i32(x: i32) -> int {
    if x >= 0 {
        x as int
    } else {
        x + 0x1_0000_0000_0000_0000
    }
}

/// Arithmetic right shift of a 32-bit signed value: the floor of `x / 2^n`.
pub open spec fn sar32(x: i32, n: nat) -> int {
    (x as int) / (pow2(n) as int)
}

/// The high half of the signed 64-bit product: the floor of `x * y / 2^32`.
pub open spec fn mulshift32(x: i32, y: i32) -> int {
    (x * y) / 0x1_0000_0000
}

/// A multiply-accumulate step on a 64-bit accumulator, modulo 2^64.
pub open spec fn madd64(s: u64, x: i32, y: i32) -> int {
    (s + x * y) % 0x1_0000_0000_0000_0000
}

/// Saturation to the 16-bit PCM sample range.
pub open spec fn clip16(v: int) -> int {
    if v > 32767 {
        32767
    } else if v < -32768 {
        -32768
    } else {
        v
    }
}

/// Saturation to the symmetric range `[-2^n, 2^n - 1]`; the identity for
/// `n >= 31`, where the range covers every `i32`.
pub open spec fn clip2n(y: i32, n: u32) -> int {
    if n >= 31 {
        y as int
    } else if y > pow2(n as nat) - 1 {
        pow2(n as nat) - 1
    } else if y < -(pow2(n as nat) as int) {
        -(pow2(n as nat) as int)
    } else {
        y as int
    }
}

proof fn lemma_i64_to_u64_bits(x: i64)
    by (bit_vector)
    ensures
        x >= 0 ==> #[verifier::truncate] (x as u64) == x,
        x < 0 ==> #[verifier::truncate] (x as u64) == x + 0x1_0000_0000_0000_0000,
{
}

pub(crate) proof fn lemma_u64_to_i32_bits(h: u64)
    by (bit_vector)
    ensures
        h % 0x1_0000_0000 < 0x8000_0000 ==> #[verifier::truncate] (h as i32) == h
            % 0x1_0000_0000,
        h % 0x1_0000_0000 >= 0x8000_0000 ==> #[verifier::truncate] (h as i32) == h
            % 0x1_0000_0000 - 0x1_0000_0000,
{
}

proof fn lemma_i32_to_u32_bits(x: i32)
    by (bit_vector)
    ensures
        x >= 0 ==> #[verifier::truncate] (x as u32) == x,
        x < 0 ==> #[verifier::truncate] (x as u32) == x + 0x1_0000_0000,
{
}

pub(crate) proof fn lemma_u32_to_i32_bits(v: u32)
    by (bit_vector)
    ensures
        v < 0x8000_0000 ==> #[verifier::truncate] (v as i32) == v,
        v >= 0x8000_0000 ==> #[verifier::truncate] (v as i32) == v - 0x1_0000_0000,
{
}

proof fn lemma_u32_not(v: u32)
    by (bit_vector)
    ensures
        !v == 0xFFFF_FFFFu32 - v,
{
}

/// Floor division of a negative dividend by a positive divisor, expressed
/// through the nonnegative quotient of `-x - 1`.
proof fn lemma_div_negative(x: int, d: int)
    requires
        d > 0,
        x < 0,
    ensures
        x / d == -1 - ((-x - 1) / d),
{
    let y = -x - 1;
    lemma_fundamental_div_mod(y, d);
    lemma_mod_bound(y, d);
    assert(x == (-1 - y / d) * d + (d - 1 - y % d)) by (nonlinear_arith)
        requires
            x == -y - 1,
            y == d * (y / d) + y % d,
    ;
    lemma_fundamental_div_mod_converse_div(x, d, -1 - y / d, d - 1 - y % d);
}

/// Logical right shift of a 64-bit accumulator: the floor of `x / 2^n`.
pub fn sar_64(x: u64, n: i32) -> (r: u64)
    requires
        0 <= n < 64,
    ensures
        r == x >> (n as u64),
        r as int == x as int / pow2(n as nat) as int,
{
    proof {
        lemma_u64_shr_is_div(x, n as u64);
    }
    x >> (n as u64)
}

/// Arithmetic right shift of a signed 32-bit value by `n < 32` places.
pub fn sar_32(x: i32, n: u32) -> (r: i32)
    requires
        n < 32,
    ensures
        r as int == sar32(x, n as nat),
{
    proof {
        lemma_pow2_pos(n as nat);
        lemma2_to64();
    }
    let xu: u32 = #[verifier::truncate] (x as u32);
    proof {
        lemma_i32_to_u32_bits(x);
    }
    if x >= 0 {
        let ru: u32 = xu >> n;
        proof {
            lemma_u32_shr_is_div(xu, n);
            lemma_div_nonincreasing(xu as int, pow2(n as nat) as int);
        }
        ru as i32
    } else {
        let nxu: u32 = !xu;
        let t: u32 = nxu >> n;
        let ru: u32 = !t;
        proof {
            lemma_u32_not(xu);
            lemma_u32_shr_is_div(nxu, n);
            lemma_div_nonincreasing(nxu as int, pow2(n as nat) as int);
            lemma_u32_not(t);
            lemma_u32_to_i32_bits(ru);
            lemma_div_negative(x as int, pow2(n as nat) as int);
        }
        #[verifier::truncate] (ru as i32)
    }
}

/// The high 32 bits of the signed 64-bit product `x * y`, as computed by a
/// 32x32 -> 64-bit multiply keeping the upper word.
pub fn mulshift_32(x: i32, y: i32) -> (r: i32)
    ensures
        r as int == mulshift32(x, y),
        -0x4000_0000 <= r as int <= 0x4000_0000,
{
    let xu: u64 = #[verifier::truncate] ((x as i64) as u64);
    let yu: u64 = #[verifier::truncate] ((y as i64) as u64);
    let pu: u64 = xu.wrapping_mul(yu);
    let hi: u64 = pu >> 32;
    proof {
        lemma_i64_to_u64_bits(x as i64);
        lemma_i64_to_u64_bits(y as i64);
        let p = (x as int) * (y as int);
        assert(-0x4000_0000_0000_0000 <= p <= 0x4000_0000_0000_0000) by (nonlinear_arith)
            requires
                -0x8000_0000 <= x <= 0x7FFF_FFFF,
                -0x8000_0000 <= y <= 0x7FFF_FFFF,
                p == (x as int) * (y as int),
        ;
        // The truncated operands differ from x and y by multiples of 2^64,
        // so the wrapped product is the signed product modulo 2^64.
        let k = (if x < 0 { y as int } else { 0 }) + (if y < 0 { x as int } else { 0 }) + (if x < 0
            && y < 0 {
            0x1_0000_0000_0000_0000int
        } else {
            0
        });
        assert(xu * yu == 0x1_0000_0000_0000_0000 * k + p) by (nonlinear_arith)
            requires
                xu == u64_bits_of_i32(x),
                yu == u64_bits_of_i32(y),
                p == (x as int) * (y as int),
                k == (if x < 0 { y as int } else { 0 }) + (if y < 0 { x as int } else { 0 }) + (
                if x < 0 && y < 0 {
                    0x1_0000_0000_0000_0000int
                } else {
                    0
                }),
        ;
        lemma_mod_multiples_vanish(k, p, 0x1_0000_0000_0000_0000);
        assert(pu as int == p % 0x1_0000_0000_0000_0000);
        // Split p into its high and low 32-bit words.
        let q = p / 0x1_0000_0000;
        lemma_fundamental_div_mod(p, 0x1_0000_0000_0000_0000);
        lemma_mod_bound(p, 0x1_0000_0000_0000_0000);
        let t = p / 0x1_0000_0000_0000_0000;
        lemma_hoist_over_denominator(p, -0x1_0000_0000 * t, 0x1_0000_0000nat);
        assert(p + (-0x1_0000_0000 * t) * 0x1_0000_0000 == p % 0x1_0000_0000_0000_0000) by (nonlinear_arith)
            requires
                p == 0x1_0000_0000_0000_0000 * t + p % 0x1_0000_0000_0000_0000,
        ;
        assert(pu as int / 0x1_0000_0000 == q - 0x1_0000_0000 * t);
        lemma_u64_shr_is_div(pu, 32);
        assert(pow2(32) == 0x1_0000_0000) by {
            lemma2_to64();
        }
        assert(hi as int == q - 0x1_0000_0000 * t);
        // q fits comfortably in 31 bits, so the truncation to i32 is exact.
        lemma_div_is_ordered(p, 0x4000_0000_0000_0000, 0x1_0000_0000);
        lemma_div_is_ordered(-0x4000_0000_0000_0000, p, 0x1_0000_0000);
        assert(0x4000_0000_0000_0000int / 0x1_0000_0000 == 0x4000_0000);
        assert((-0x4000_0000_0000_0000int) / 0x1_0000_0000 == -0x4000_0000);
        assert(pu >> 32 < 0x1_0000_0000) by (bit_vector);
        if q >= 0 {
            lemma_fundamental_div_mod_converse_mod(hi as int, 0x1_0000_0000, -t, q);
            lemma_small_mod(q as nat, 0x1_0000_0000 as nat);
            assert(hi as int == q);
        } else {
            lemma_fundamental_div_mod_converse_mod(hi as int, 0x1_0000_0000, -t - 1, q + 0x1_0000_0000);
            lemma_small_mod((q + 0x1_0000_0000) as nat, 0x1_0000_0000 as nat);
            assert(hi as int == q + 0x1_0000_0000);
        }
        lemma_small_mod(hi as nat, 0x1_0000_0000nat);
        lemma_u64_to_i32_bits(hi);
    }
    #[verifier::truncate] (hi as i32)
}

/// A product against a nonnegative Q31 coefficient keeps at most half the
/// magnitude of the variable operand (plus one for the floor).
pub proof fn lemma_mulshift32_bound(x: i32, y: i32, m: int)
    requires
        0 <= x,
        0 <= m,
        -m <= y <= m,
    ensures
        -(m / 2 + 1) <= mulshift32(x, y) <= m / 2,
{
    let p = (x as int) * (y as int);
    assert(-(0x8000_0000 * m) <= p <= 0x8000_0000 * m) by (nonlinear_arith)
        requires
            0 <= x < 0x8000_0000,
            -m <= y <= m,
            0 <= m,
            p == (x as int) * (y as int),
    ;
    lemma_div_is_ordered(p, 0x8000_0000 * m, 0x1_0000_0000);
    lemma_div_is_ordered(-(0x8000_0000 * m), p, 0x1_0000_0000);
    assert((m / 2) * 0x1_0000_0000 + 0x8000_0000 * (m % 2) == 0x8000_0000 * m) by (nonlinear_arith)
        requires
            m == 2 * (m / 2) + m % 2,
    ;
    lemma_fundamental_div_mod_converse_div(
        0x8000_0000 * m,
        0x1_0000_0000,
        m / 2,
        0x8000_0000 * (m % 2),
    );
    assert((-(m / 2) - (m % 2)) * 0x1_0000_0000 + 0x8000_0000 * (m % 2) == -(0x8000_0000 * m))
        by (nonlinear_arith)
        requires
            m == 2 * (m / 2) + m % 2,
    ;
    lemma_fundamental_div_mod_converse_div(
        -(0x8000_0000 * m),
        0x1_0000_0000,
        -(m / 2) - (m % 2),
        0x8000_0000 * (m % 2),
    );
}

/// One multiply-accumulate step of the 64-bit convolution accumulator,
/// wrapping modulo 2^64 as the hardware accumulator does.
pub fn madd_64(sum64: u64, x: i32, y: i32) -> (r: u64)
    ensures
        r as int == madd64(sum64, x, y),
{
    let xu: u64 = #[verifier::truncate] ((x as i64) as u64);
    let yu: u64 = #[verifier::truncate] ((y as i64) as u64);
    let pu: u64 = xu.wrapping_mul(yu);
    let r: u64 = sum64.wrapping_add(pu);
    proof {
        lemma_i64_to_u64_bits(x as i64);
        lemma_i64_to_u64_bits(y as i64);
        let p = (x as int) * (y as int);
        let k = (if x < 0 { y as int } else { 0 }) + (if y < 0 { x as int } else { 0 }) + (if x < 0
            && y < 0 {
            0x1_0000_0000_0000_0000int
        } else {
            0
        });
        assert(xu * yu == 0x1_0000_0000_0000_0000 * k + p) by (nonlinear_arith)
            requires
                xu == u64_bits_of_i32(x),
                yu == u64_bits_of_i32(y),
                p == (x as int) * (y as int),
                k == (if x < 0 { y as int } else { 0 }) + (if y < 0 { x as int } else { 0 }) + (
                if x < 0 && y < 0 {
                    0x1_0000_0000_0000_0000int
                } else {
                    0
                }),
        ;
        lemma_mod_multiples_vanish(k, p, 0x1_0000_0000_0000_0000);
        assert(pu as int == p % 0x1_0000_0000_0000_0000);
        // Folding the reduced product into the sum commutes with reduction.
        lemma_add_mod_noop_right(sum64 as int, p, 0x1_0000_0000_0000_0000);
        lemma_mod_bound(sum64 + p % 0x1_0000_0000_0000_0000, 0x1_0000_0000_0000_0000);
        if sum64 + pu <= u64::MAX {
            lemma_small_mod((sum64 + pu) as nat, 0x1_0000_0000_0000_0000 as nat);
        } else {
            lemma_fundamental_div_mod_converse_mod(sum64 + pu, 0x1_0000_0000_0000_0000, 1, sum64 + pu - 0x1_0000_0000_0000_0000);
        }
    }
    r
}

/// Shift a Q-format value down by `frac_bits` and saturate it to a 16-bit
/// PCM sample.
pub fn clip_to_short(x: i32, frac_bits: i32) -> (r: i16)
    requires
        0 <= frac_bits < 32,
    ensures
        r as int == clip16(sar32(x, frac_bits as nat)),
{
    let s = sar_32(x, frac_bits as u32);
    if s > 32767 {
        32767
    } else if s < -32768 {
        -32768
    } else {
        s as i16
    }
}

/// With no fractional shift, the output of `clip_to_short` is exactly the
/// input clamped to `[-32768, 32767]`.
pub proof fn lemma_clip_to_short_unshifted(x: i32)
    ensures
        clip16(sar32(x, 0)) == clip16(x as int),
{
    lemma2_to64();
    lemma_div_basics(x as int);
}

/// Saturate a value to the symmetric range `[-2^n, 2^n - 1]`; for
/// `n >= 31` every `i32` is already in range and the value is returned
/// unchanged.
pub fn clip_2n(y: i32, n: u32) -> (r: i32)
    ensures
        r as int == clip2n(y, n),
        n >= 31 ==> r == y,
        n < 31 ==> -(pow2(n as nat) as int) <= r as int <= pow2(n as nat) - 1,
        n < 31 && -(pow2(n as nat) as int) <= y as int <= pow2(n as nat) - 1 ==> r == y,
{
    if n >= 31 {
        y
    } else {
        let p: u32 = 1u32 << n;
        proof {
            lemma_pow2_pos(n as nat);
            lemma2_to64();
            lemma_u32_shl_is_mul(1u32, n);
        }
        let hi: i32 = (p - 1) as i32;
        let lo: i32 = -(p as i32);
        if y > hi {
            hi
        } else if y < lo {
            lo
        } else {
            y
        }
    }
}

#[allow(non_snake_case)]
pub fn CLIP_2N(y: i32, n: u32) -> (r: i32)
    ensures
        r as int == clip2n(y, n),
{
    clip_2n(y, n)
}

#[allow(non_snake_case)]
pub fn MULSHIFT32(x: i32, y: i32) -> (r: i32)
    ensures
        r as int == mulshift32(x, y),
{
    mulshift_32(x, y)
}

#[allow(non_snake_case)]
pub fn MADD64(sum64: u64, x: i32, y: i32) -> (r: u64)
    ensures
        r as int == madd64(sum64, x, y),
{
    madd_64(sum64, x, y)
}

#[allow(non_snake_case)]
pub fn ClipToShort(x: i32, frac_bits: i32) -> (r: i16)
    requires
        0 <= frac_bits < 32,
    ensures
        r as int == clip16(sar32(x, frac_bits as nat)),
{
    clip_to_short(x, frac_bits)
}

} // verus!

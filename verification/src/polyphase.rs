//! Polyphase synthesis filterbank: convolves the vbuf history of DCT
//! outputs against the shuffled 264-entry coefficient table, producing 32
//! PCM samples per channel per call.
//!
//! Every accumulation step is a 32x32 multiply added into a 64-bit
//! accumulator modulo 2^64, and every output sample is the accumulator
//! shifted down and saturated to 16 bits.

use vstd::prelude::*;

verus! {

use crate::qmath::{clip16, clip_to_short, sar_64, madd_64, lemma_u64_to_i32_bits,
    lemma_u32_to_i32_bits};
use vstd::arithmetic::power2::lemma2_to64;

/// Number of fraction bits in the dequantizer's output format.
pub const DQ_FRACBITS_OUT: u32 = 25;

/// Number of leading sign bits in the polyphase coefficients, shifted out
/// of the accumulator before clipping.
pub const CSHIFT: u32 = 12;

/// The rounding bias each accumulator starts from: a half in the output's
/// fixed-point format, `1 << ((DQ_FRACBITS_OUT - 2 - 2 - 15) - 1 + (32 - CSHIFT))`.
pub const RND_VAL: u64 = 0x0200_0000;

/// The polyphase filter coefficient table, shuffled into convolution
/// order (window index order 0, 15, 2, 13, ... 14, 1), as Q(CSHIFT)-headroom
/// fixed-point words.
pub const POLY_COEF: [u32; 264] = [
    0x00000000, 0x00000074, 0x00000354, 0x0000072c, 0x00001fd4, 0x00005084,
    0x000066b8, 0x000249c4, 0x00049478, 0xfffdb63c, 0x000066b8, 0xffffaf7c,
    0x00001fd4, 0xfffff8d4, 0x00000354, 0xffffff8c, 0xfffffffc, 0x00000068,
    0x00000368, 0x00000644, 0x00001f40, 0x00004ad0, 0x00005d1c, 0x00022ce0,
    0x000493c0, 0xfffd9960, 0x00006f78, 0xffffa9cc, 0x0000203c, 0xfffff7e4,
    0x00000340, 0xffffff84, 0xfffffffc, 0x00000060, 0x00000378, 0x0000056c,
    0x00001e80, 0x00004524, 0x000052a0, 0x00020ffc, 0x000491a0, 0xfffd7ca0,
    0x00007760, 0xffffa424, 0x00002080, 0xfffff6ec, 0x00000328, 0xffffff74,
    0xfffffffc, 0x00000054, 0x00000384, 0x00000498, 0x00001d94, 0x00003f7c,
    0x00004744, 0x0001f32c, 0x00048e18, 0xfffd6008, 0x00007e70, 0xffff9e8c,
    0x0000209c, 0xfffff5ec, 0x00000310, 0xffffff68, 0xfffffffc, 0x0000004c,
    0x0000038c, 0x000003d0, 0x00001c78, 0x000039e4, 0x00003b00, 0x0001d680,
    0x00048924, 0xfffd43ac, 0x000084b0, 0xffff990c, 0x00002094, 0xfffff4e4,
    0x000002f8, 0xffffff5c, 0xfffffffc, 0x00000044, 0x00000390, 0x00000314,
    0x00001b2c, 0x0000345c, 0x00002ddc, 0x0001ba04, 0x000482d0, 0xfffd279c,
    0x00008a20, 0xffff93a4, 0x0000206c, 0xfffff3d4, 0x000002dc, 0xffffff4c,
    0xfffffffc, 0x00000040, 0x00000390, 0x00000264, 0x000019b0, 0x00002ef0,
    0x00001fd4, 0x00019dc8, 0x00047b1c, 0xfffd0be8, 0x00008ecc, 0xffff8e64,
    0x00002024, 0xfffff2c0, 0x000002c0, 0xffffff3c, 0xfffffff8, 0x00000038,
    0x0000038c, 0x000001bc, 0x000017fc, 0x0000299c, 0x000010e8, 0x000181d8,
    0x0004720c, 0xfffcf09c, 0x000092b4, 0xffff894c, 0x00001fc0, 0xfffff1a4,
    0x000002a4, 0xffffff2c, 0xfffffff8, 0x00000034, 0x00000380, 0x00000120,
    0x00001618, 0x00002468, 0x00000118, 0x00016644, 0x000467a4, 0xfffcd5cc,
    0x000095e0, 0xffff8468, 0x00001f44, 0xfffff084, 0x00000284, 0xffffff18,
    0xfffffff8, 0x0000002c, 0x00000374, 0x00000090, 0x00001400, 0x00001f58,
    0xfffff068, 0x00014b14, 0x00045bf0, 0xfffcbb88, 0x00009858, 0xffff7fbc,
    0x00001ea8, 0xffffef60, 0x00000268, 0xffffff04, 0xfffffff8, 0x00000028,
    0x0000035c, 0x00000008, 0x000011ac, 0x00001a70, 0xffffded8, 0x00013058,
    0x00044ef8, 0xfffca1d8, 0x00009a1c, 0xffff7b54, 0x00001dfc, 0xffffee3c,
    0x0000024c, 0xfffffef0, 0xfffffff4, 0x00000024, 0x00000340, 0xffffff8c,
    0x00000f28, 0x000015b0, 0xffffcc70, 0x0001161c, 0x000440bc, 0xfffc88d8,
    0x00009b3c, 0xffff7734, 0x00001d38, 0xffffed18, 0x0000022c, 0xfffffedc,
    0xfffffff4, 0x00000020, 0x00000320, 0xffffff1c, 0x00000c68, 0x0000111c,
    0xffffb92c, 0x0000fc6c, 0x00043150, 0xfffc708c, 0x00009bb8, 0xffff7368,
    0x00001c64, 0xffffebf4, 0x00000210, 0xfffffec4, 0xfffffff0, 0x0000001c,
    0x000002f4, 0xfffffeb4, 0x00000974, 0x00000cb8, 0xffffa518, 0x0000e350,
    0x000420b4, 0xfffc5908, 0x00009b9c, 0xffff6ff4, 0x00001b7c, 0xffffead0,
    0x000001f4, 0xfffffeac, 0xfffffff0, 0x0000001c, 0x000002c4, 0xfffffe58,
    0x00000648, 0x00000884, 0xffff9038, 0x0000cad0, 0x00040ef8, 0xfffc425c,
    0x00009af0, 0xffff6ce0, 0x00001a88, 0xffffe9b0, 0x000001d4, 0xfffffe94,
    0xffffffec, 0x00000018, 0x0000028c, 0xfffffe04, 0x000002e4, 0x00000480,
    0xffff7a90, 0x0000b2fc, 0x0003fc28, 0xfffc2c90, 0x000099b8, 0xffff6a3c,
    0x00001988, 0xffffe898, 0x000001bc, 0xfffffe7c, 0x000001a0, 0x0000187c,
    0x000097fc, 0x0003e84c, 0xffff6424, 0xffffff4c, 0x00000248, 0xffffffec,
];

/// A stored coefficient word reinterpreted as a signed 32-bit value.
pub open spec fn coef_val(c: u32) -> int {
    if c < 0x8000_0000 {
        c as int
    } else {
        c - 0x1_0000_0000
    }
}

/// The negated coefficient, wrapping as two's complement negation does.
pub open spec fn coef_neg_val(c: u32) -> int {
    if coef_val(c) == -0x8000_0000 {
        -0x8000_0000
    } else {
        -coef_val(c)
    }
}

/// One multiply-accumulate step modulo 2^64.
pub open spec fn madd_step(s: int, x: int, y: int) -> int {
    (s + x * y) % 0x1_0000_0000_0000_0000
}

/// The forward accumulator over window `vb`, coefficients from `cb`:
/// `n` steps, each adding `v[vb+j] * c[cb+2j]` and
/// `v[vb+23-j] * (-c[cb+2j+1])`.
pub open spec fn psum1(v: Seq<i32>, c: Seq<u32>, vb: int, cb: int, n: nat) -> int
    decreases n,
{
    if n == 0 {
        RND_VAL as int
    } else {
        let j = n - 1;
        let s0 = psum1(v, c, vb, cb, (n - 1) as nat);
        let s1 = madd_step(s0, v[vb + j] as int, coef_val(c[cb + 2 * j]));
        madd_step(s1, v[vb + 23 - j] as int, coef_neg_val(c[cb + 2 * j + 1]))
    }
}

/// The mirrored accumulator over the same window: `n` steps, each adding
/// `v[vb+j] * c[cb+2j+1]` and `v[vb+23-j] * c[cb+2j]`.
pub open spec fn psum2(v: Seq<i32>, c: Seq<u32>, vb: int, cb: int, n: nat) -> int
    decreases n,
{
    if n == 0 {
        RND_VAL as int
    } else {
        let j = n - 1;
        let s0 = psum2(v, c, vb, cb, (n - 1) as nat);
        let s1 = madd_step(s0, v[vb + j] as int, coef_val(c[cb + 2 * j + 1]));
        madd_step(s1, v[vb + 23 - j] as int, coef_val(c[cb + 2 * j]))
    }
}

/// The accumulator for output sample 16, which uses the dedicated last
/// eight coefficients of the table.
pub open spec fn psum16(v: Seq<i32>, c: Seq<u32>, vb: int, n: nat) -> int
    decreases n,
{
    if n == 0 {
        RND_VAL as int
    } else {
        let j = n - 1;
        madd_step(psum16(v, c, vb, (n - 1) as nat), v[vb + j] as int, coef_val(c[256 + j]))
    }
}

/// A finished accumulator turned into a PCM sample: shift out the
/// coefficient headroom, truncate to 32 bits, shift out the fraction bits
/// and saturate to the 16-bit sample range.
pub open spec fn sample_of_sum(s: int) -> int {
    let sh = s / 0x10_0000;
    let w = sh % 0x1_0000_0000;
    let t = if w < 0x8000_0000 {
        w
    } else {
        w - 0x1_0000_0000
    };
    clip16(t / 64)
}

/// The accumulator feeding interleaved stereo output index `k` (sample
/// `k / 2`, channel `k % 2`).
pub open spec fn stereo_sum(v: Seq<i32>, c: Seq<u32>, k: int) -> int {
    let s = k / 2;
    let ch = k % 2;
    if s == 0 {
        psum1(v, c, 32 * ch, 0, 8)
    } else if s == 16 {
        psum16(v, c, 1024 + 32 * ch, 8)
    } else if s <= 15 {
        psum1(v, c, 64 * s + 32 * ch, 16 * s, 8)
    } else {
        psum2(v, c, 64 * (32 - s) + 32 * ch, 16 * (32 - s), 8)
    }
}

/// The accumulator feeding mono output sample `s`.
pub open spec fn mono_sum(v: Seq<i32>, c: Seq<u32>, s: int) -> int {
    if s == 0 {
        psum1(v, c, 0, 0, 8)
    } else if s == 16 {
        psum16(v, c, 1024, 8)
    } else if s <= 15 {
        psum1(v, c, 64 * s, 16 * s, 8)
    } else {
        psum2(v, c, 64 * (32 - s), 16 * (32 - s), 8)
    }
}

fn coef_pos(c: u32) -> (r: i32)
    ensures
        r as int == coef_val(c),
{
    proof {
        lemma_u32_to_i32_bits(c);
    }
    #[verifier::truncate] (c as i32)
}

fn coef_neg(c: u32) -> (r: i32)
    ensures
        r as int == coef_neg_val(c),
{
    let ci = coef_pos(c);
    0i32.wrapping_sub(ci)
}

fn out_sample(s: u64) -> (r: i16)
    ensures
        r as int == sample_of_sum(s as int),
{
    let sh = sar_64(s, 20);
    proof {
        lemma2_to64();
        lemma_u64_to_i32_bits(sh);
    }
    let t: i32 = #[verifier::truncate] (sh as i32);
    clip_to_short(t, 6)
}

/// Both eight-step accumulators over one 64-entry window of the history.
fn conv_pair(vbuf: &[i32], coef: &[u32], vb: usize, cb: usize) -> (r: (u64, u64))
    requires
        vb + 56 <= vbuf@.len(),
        cb + 16 <= coef@.len(),
    ensures
        r.0 as int == psum1(vbuf@, coef@, vb as int, cb as int, 8),
        r.1 as int == psum2(vbuf@, coef@, vb as int, cb as int, 8),
{
    let vlen = vbuf.len();
    let clen = coef.len();
    let mut sum1: u64 = RND_VAL;
    let mut sum2: u64 = RND_VAL;
    let mut j: usize = 0;
    while j < 8
        invariant
            vlen == vbuf@.len(),
            clen == coef@.len(),
            vb + 56 <= vlen,
            cb + 16 <= clen,
            j <= 8,
            sum1 as int == psum1(vbuf@, coef@, vb as int, cb as int, j as nat),
            sum2 as int == psum2(vbuf@, coef@, vb as int, cb as int, j as nat),
        decreases 8 - j,
    {
        let c1 = coef[cb + 2 * j];
        let c2 = coef[cb + 2 * j + 1];
        let c1i = coef_pos(c1);
        let c2i = coef_pos(c2);
        let nc2i = coef_neg(c2);
        let v_lo = vbuf[vb + j];
        let v_hi = vbuf[vb + 23 - j];
        sum1 = madd_64(sum1, v_lo, c1i);
        sum2 = madd_64(sum2, v_lo, c2i);
        sum1 = madd_64(sum1, v_hi, nc2i);
        sum2 = madd_64(sum2, v_hi, c1i);
        j += 1;
    }
    (sum1, sum2)
}

/// The eight-step accumulator for output sample 16.
fn conv_16(vbuf: &[i32], coef: &[u32], vb: usize) -> (r: u64)
    requires
        vb + 8 <= vbuf@.len(),
        coef@.len() >= 264,
    ensures
        r as int == psum16(vbuf@, coef@, vb as int, 8),
{
    let vlen = vbuf.len();
    let mut sum: u64 = RND_VAL;
    let mut j: usize = 0;
    while j < 8
        invariant
            vlen == vbuf@.len(),
            vb + 8 <= vlen,
            coef@.len() >= 264,
            j <= 8,
            sum as int == psum16(vbuf@, coef@, vb as int, j as nat),
        decreases 8 - j,
    {
        let c1 = coef_pos(coef[256 + j]);
        sum = madd_64(sum, vbuf[vb + j], c1);
        j += 1;
    }
    sum
}

/// The four interleaved outputs written by one step of the main stereo
/// convolution loop.
pub open spec fn stereo_written(p: Seq<i16>, v: Seq<i32>, c: Seq<u32>, t: int) -> bool {
    &&& p[2 * t] as int == sample_of_sum(stereo_sum(v, c, 2 * t))
    &&& p[2 * t + 1] as int == sample_of_sum(stereo_sum(v, c, 2 * t + 1))
    &&& p[64 - 2 * t] as int == sample_of_sum(stereo_sum(v, c, 64 - 2 * t))
    &&& p[64 - 2 * t + 1] as int == sample_of_sum(stereo_sum(v, c, 64 - 2 * t + 1))
}

/// Filter one subband: produce 32 interleaved PCM samples for each of two
/// channels from the vbuf history and the coefficient table.
pub fn polyphase_stereo(pcm: &mut [i16], vbuf: &[i32], coef_base: &[u32])
    requires
        old(pcm)@.len() >= 64,
        vbuf@.len() >= 1088,
        coef_base@.len() >= 264,
    ensures
        final(pcm)@.len() == old(pcm)@.len(),
        forall|k: int|
            0 <= k < 64 ==> final(pcm)@[k] as int == sample_of_sum(
                #[trigger] stereo_sum(vbuf@, coef_base@, k),
            ),
        forall|k: int| 64 <= k < old(pcm)@.len() ==> final(pcm)@[k] == old(pcm)@[k],
{
    let (s0l, _u1) = conv_pair(vbuf, coef_base, 0, 0);
    let (s0r, _u2) = conv_pair(vbuf, coef_base, 32, 0);
    pcm[0] = out_sample(s0l);
    pcm[1] = out_sample(s0r);
    let s16l = conv_16(vbuf, coef_base, 1024);
    let s16r = conv_16(vbuf, coef_base, 1024 + 32);
    pcm[32] = out_sample(s16l);
    pcm[33] = out_sample(s16r);
    let mut s: usize = 1;
    while s <= 15
        invariant
            pcm@.len() == old(pcm)@.len(),
            old(pcm)@.len() >= 64,
            vbuf@.len() >= 1088,
            coef_base@.len() >= 264,
            1 <= s <= 16,
            pcm@[0] as int == sample_of_sum(stereo_sum(vbuf@, coef_base@, 0)),
            pcm@[1] as int == sample_of_sum(stereo_sum(vbuf@, coef_base@, 1)),
            pcm@[32] as int == sample_of_sum(stereo_sum(vbuf@, coef_base@, 32)),
            pcm@[33] as int == sample_of_sum(stereo_sum(vbuf@, coef_base@, 33)),
            forall|t: int| 1 <= t < s ==> #[trigger] stereo_written(pcm@, vbuf@, coef_base@, t),
            forall|k: int| 64 <= k < pcm@.len() ==> pcm@[k] == old(pcm)@[k],
        decreases 16 - s,
    {
        let ghost p0 = pcm@;
        let (l1, l2) = conv_pair(vbuf, coef_base, 64 * s, 16 * s);
        let (r1, r2) = conv_pair(vbuf, coef_base, 64 * s + 32, 16 * s);
        pcm[2 * s] = out_sample(l1);
        pcm[2 * s + 1] = out_sample(r1);
        pcm[64 - 2 * s] = out_sample(l2);
        pcm[64 - 2 * s + 1] = out_sample(r2);
        proof {
            assert((2 * s as int) / 2 == s as int && (2 * s as int) % 2 == 0);
            assert((2 * s as int + 1) / 2 == s as int && (2 * s as int + 1) % 2 == 1);
            assert((64 - 2 * s as int) / 2 == 32 - s as int && (64 - 2 * s as int) % 2 == 0);
            assert((64 - 2 * s as int + 1) / 2 == 32 - s as int && (64 - 2 * s as int + 1) % 2
                == 1);
            assert(stereo_written(pcm@, vbuf@, coef_base@, s as int));
            assert forall|t: int|
                1 <= t < s implies #[trigger] stereo_written(pcm@, vbuf@, coef_base@, t) by {
                assert(stereo_written(p0, vbuf@, coef_base@, t));
                assert(pcm@[2 * t] == p0[2 * t]);
                assert(pcm@[2 * t + 1] == p0[2 * t + 1]);
                assert(pcm@[64 - 2 * t] == p0[64 - 2 * t]);
                assert(pcm@[64 - 2 * t + 1] == p0[64 - 2 * t + 1]);
            };
        }
        s += 1;
    }
    proof {
        assert forall|k: int|
            0 <= k < 64 implies pcm@[k] as int == sample_of_sum(
            #[trigger] stereo_sum(vbuf@, coef_base@, k),
        ) by {
            let sk = k / 2;
            if sk == 0 || sk == 16 {
            } else if sk <= 15 {
                assert(stereo_written(pcm@, vbuf@, coef_base@, sk));
                assert(k == 2 * sk || k == 2 * sk + 1);
            } else {
                let t = 32 - sk;
                assert(stereo_written(pcm@, vbuf@, coef_base@, t));
                assert(k == 64 - 2 * t || k == 64 - 2 * t + 1);
            }
        };
    }
}

/// The two outputs written by one step of the main mono convolution loop.
pub open spec fn mono_written(p: Seq<i16>, v: Seq<i32>, c: Seq<u32>, t: int) -> bool {
    &&& p[t] as int == sample_of_sum(mono_sum(v, c, t))
    &&& p[32 - t] as int == sample_of_sum(mono_sum(v, c, 32 - t))
}

/// Filter one subband: produce 32 PCM samples for one channel from the
/// vbuf history and the coefficient table.
pub fn polyphase_mono(pcm: &mut [i16], vbuf: &[i32], coef_base: &[u32])
    requires
        old(pcm)@.len() >= 32,
        vbuf@.len() >= 1088,
        coef_base@.len() >= 264,
    ensures
        final(pcm)@.len() == old(pcm)@.len(),
        forall|k: int|
            0 <= k < 32 ==> final(pcm)@[k] as int == sample_of_sum(
                #[trigger] mono_sum(vbuf@, coef_base@, k),
            ),
        forall|k: int| 32 <= k < old(pcm)@.len() ==> final(pcm)@[k] == old(pcm)@[k],
{
    let (s0, _u1) = conv_pair(vbuf, coef_base, 0, 0);
    pcm[0] = out_sample(s0);
    let s16 = conv_16(vbuf, coef_base, 1024);
    pcm[16] = out_sample(s16);
    let mut s: usize = 1;
    while s <= 15
        invariant
            pcm@.len() == old(pcm)@.len(),
            old(pcm)@.len() >= 32,
            vbuf@.len() >= 1088,
            coef_base@.len() >= 264,
            1 <= s <= 16,
            pcm@[0] as int == sample_of_sum(mono_sum(vbuf@, coef_base@, 0)),
            pcm@[16] as int == sample_of_sum(mono_sum(vbuf@, coef_base@, 16)),
            forall|t: int| 1 <= t < s ==> #[trigger] mono_written(pcm@, vbuf@, coef_base@, t),
            forall|k: int| 32 <= k < pcm@.len() ==> pcm@[k] == old(pcm)@[k],
        decreases 16 - s,
    {
        let ghost p0 = pcm@;
        let (l1, l2) = conv_pair(vbuf, coef_base, 64 * s, 16 * s);
        pcm[s] = out_sample(l1);
        pcm[32 - s] = out_sample(l2);
        proof {
            assert(mono_written(pcm@, vbuf@, coef_base@, s as int));
            assert forall|t: int|
                1 <= t < s implies #[trigger] mono_written(pcm@, vbuf@, coef_base@, t) by {
                assert(mono_written(p0, vbuf@, coef_base@, t));
                assert(pcm@[t] == p0[t]);
                assert(pcm@[32 - t] == p0[32 - t]);
            };
        }
        s += 1;
    }
    proof {
        assert forall|k: int|
            0 <= k < 32 implies pcm@[k] as int == sample_of_sum(
            #[trigger] mono_sum(vbuf@, coef_base@, k),
        ) by {
            if k == 0 || k == 16 {
            } else if k <= 15 {
                assert(mono_written(pcm@, vbuf@, coef_base@, k));
            } else {
                let t = 32 - k;
                assert(mono_written(pcm@, vbuf@, coef_base@, t));
                assert(k == 32 - t);
            }
        };
    }
}

} // verus!

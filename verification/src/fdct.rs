//! 32-point fast DCT (radix-4 plus radix-8) feeding the polyphase
//! filterbank: transforms one block of 32 subband samples and scatters the
//! results, each duplicated 8 entries apart, into the double-buffered vbuf
//! history in polyphase order.
//!
//! The butterfly arithmetic is stated in two's complement wrapping
//! arithmetic, exactly as the hardware computes it; the guard-bit shift at
//! entry brings inputs that arrive with fewer than six leading sign bits
//! down to that headroom first.

use vstd::prelude::*;

verus! {

use crate::qmath::{mulshift_32, sar_32, sar32, clip_2n, clip2n};
use vstd::wrapping::i32_specs;
use vstd::arithmetic::power2::{pow2, lemma2_to64};
use vstd::bits::lemma_u32_shl_is_mul;

/// Wrapping 32-bit sum.
pub open spec fn wadd(a: i32, b: i32) -> i32 {
    i32_specs::wrapping_add(a, b)
}

/// Wrapping 32-bit difference.
pub open spec fn wsub(a: i32, b: i32) -> i32 {
    i32_specs::wrapping_sub(a, b)
}

/// The high product `mulshift` scaled up by a power of two, wrapping.
pub open spec fn wms(c: i32, a: i32, scale: i32) -> i32 {
    i32_specs::wrapping_mul((((c as int) * (a as int)) / 0x1_0000_0000) as i32, scale)
}

/// First-pass coefficients 1/(2 cos((i + 0.5) pi / 32)), in the Q format
/// that the matching entry of `DCT_SC1` compensates.
pub const DCT_COS_ODD: [i32; 8] = [
    0x4013c251, 0x40b345bd, 0x41fa2d6d, 0x43f93421, 0x46cc1bc4, 0x4a9d9cf0, 0x4fae3711,
    0x56601ea7,
];

/// First-pass coefficients for the mirrored half of the block.
pub const DCT_COS_EVEN: [i32; 8] = [
    0x518522fb, 0x6d0b20cf, 0x41d95790, 0x5efc8d96, 0x4ad81a97, 0x7c7d1db3, 0x6b6fcf26,
    0x5f4cf6eb,
];

/// First-pass coefficients 1/(2 cos((i + 0.5) pi / 16)).
pub const DCT_COS_MID: [i32; 8] = [
    0x404f4672, 0x42e13c10, 0x48919f44, 0x52cb0e63, 0x64e2402e, 0x43e224a9, 0x6e3c92c1,
    0x519e4e04,
];

/// Post-multiply scale compensating the Q format of `DCT_COS_EVEN`.
pub const DCT_SC1: [i32; 8] = [32, 8, 8, 4, 4, 2, 2, 2];

/// Post-multiply scale compensating the Q format of `DCT_COS_MID`.
pub const DCT_SC2: [i32; 8] = [2, 2, 2, 2, 2, 4, 4, 16];

/// Second-pass radix-8 coefficients; chunks 1 and 3 run sign-flipped.
pub const DCT_C2A: [i32; 4] = [0x4140fb46, -0x4140fb46, 0x4140fb46, -0x4140fb46];

pub const DCT_C2B: [i32; 4] = [0x52036742, -0x52036742, 0x52036742, -0x52036742];

pub const DCT_C2C: [i32; 4] = [0x4cf8de88, -0x4cf8de88, 0x4cf8de88, -0x4cf8de88];

pub const DCT_C2D: [i32; 4] = [0x73326bbf, -0x73326bbf, 0x73326bbf, -0x73326bbf];

/// 1/(2 cos(pi/8)) in Q31.
pub const DCT_C3A: i32 = 0x4545e9ef;

/// 1/(2 cos(3 pi/8)) in Q30.
pub const DCT_C3B: i32 = 0x539eba45;

/// sqrt(0.5) in Q31.
pub const DCT_C4: i32 = 0x5a82799a;

/// Output `k` of the first butterfly pass over the block.
pub open spec fn pass1_val(x: Seq<i32>, k: int) -> i32 {
    let i = if k < 8 {
        k
    } else if k < 16 {
        15 - k
    } else if k < 24 {
        k - 16
    } else {
        31 - k
    };
    let a0 = x[i];
    let a1 = x[15 - i];
    let a2 = x[16 + i];
    let a3 = x[31 - i];
    let b0 = wadd(a0, a3);
    let b3 = wms(DCT_COS_ODD[i], wsub(a0, a3), 2);
    let b1 = wadd(a1, a2);
    let b2 = wms(DCT_COS_EVEN[i], wsub(a1, a2), DCT_SC1[i]);
    if k < 8 {
        wadd(b0, b1)
    } else if k < 16 {
        wms(DCT_COS_MID[i], wsub(b0, b1), DCT_SC2[i])
    } else if k < 24 {
        wadd(b2, b3)
    } else {
        wms(DCT_COS_MID[i], wsub(b3, b2), DCT_SC2[i])
    }
}

pub open spec fn pass1_seq(x: Seq<i32>) -> Seq<i32> {
    Seq::new(32, |k: int| pass1_val(x, k))
}

/// Output `k` of the second butterfly pass (radix-8 over chunk `k / 8`).
pub open spec fn pass2_val(y: Seq<i32>, k: int) -> i32 {
    let c = k / 8;
    let b0 = wadd(y[8 * c], y[8 * c + 7]);
    let b7 = wms(DCT_C2A[c], wsub(y[8 * c], y[8 * c + 7]), 2);
    let b3 = wadd(y[8 * c + 3], y[8 * c + 4]);
    let b4 = wms(DCT_C2B[c], wsub(y[8 * c + 3], y[8 * c + 4]), 8);
    let t0 = wadd(b0, b3);
    let t3 = wms(DCT_C3A, wsub(b0, b3), 2);
    let t4 = wadd(b4, b7);
    let t7 = wms(DCT_C3A, wsub(b7, b4), 2);
    let b1 = wadd(y[8 * c + 1], y[8 * c + 6]);
    let b6 = wms(DCT_C2C[c], wsub(y[8 * c + 1], y[8 * c + 6]), 2);
    let b2 = wadd(y[8 * c + 2], y[8 * c + 5]);
    let b5 = wms(DCT_C2D[c], wsub(y[8 * c + 2], y[8 * c + 5]), 2);
    let t1 = wadd(b1, b2);
    let t2 = wms(DCT_C3B, wsub(b1, b2), 4);
    let t5 = wadd(b5, b6);
    let t6 = wms(DCT_C3B, wsub(b6, b5), 4);
    let bb0 = wadd(t0, t1);
    let bb1 = wms(DCT_C4, wsub(t0, t1), 2);
    let bb2 = wadd(t2, t3);
    let bb3 = wms(DCT_C4, wsub(t3, t2), 2);
    let bb4 = wadd(t4, t5);
    let bb5 = wms(DCT_C4, wsub(t4, t5), 2);
    let bb6 = wadd(t6, t7);
    let bb7 = wms(DCT_C4, wsub(t7, t6), 2);
    let j = k % 8;
    if j == 0 {
        bb0
    } else if j == 1 {
        bb1
    } else if j == 2 {
        wadd(bb2, bb3)
    } else if j == 3 {
        bb3
    } else if j == 4 {
        wadd(bb4, wadd(bb6, bb7))
    } else if j == 5 {
        wadd(bb5, bb7)
    } else if j == 6 {
        wadd(bb5, wadd(bb6, bb7))
    } else {
        bb7
    }
}

/// The 32 transformed columns: both butterfly passes.
pub open spec fn fdct32_cols(x: Seq<i32>) -> Seq<i32> {
    Seq::new(32, |k: int| pass2_val(pass1_seq(x), k))
}

/// The four outputs iteration `j` of the first pass writes.
pub open spec fn p1_written(y: Seq<i32>, x: Seq<i32>, j: int) -> bool {
    &&& y[j] == pass1_val(x, j)
    &&& y[15 - j] == pass1_val(x, 15 - j)
    &&& y[16 + j] == pass1_val(x, 16 + j)
    &&& y[31 - j] == pass1_val(x, 31 - j)
}

fn pass1(x: &[i32; 32]) -> (y: [i32; 32])
    ensures
        forall|k: int| 0 <= k < 32 ==> y@[k] == pass1_val(x@, k),
{
    let mut y = [0i32; 32];
    let mut i: usize = 0;
    while i < 8
        invariant
            i <= 8,
            forall|j: int| 0 <= j < i ==> #[trigger] p1_written(y@, x@, j),
        decreases 8 - i,
    {
        let ghost y0 = y@;
        let a0 = x[i];
        let a1 = x[15 - i];
        let a2 = x[16 + i];
        let a3 = x[31 - i];
        let b0 = a0.wrapping_add(a3);
        let b3 = mulshift_32(DCT_COS_ODD[i], a0.wrapping_sub(a3)).wrapping_mul(2);
        let b1 = a1.wrapping_add(a2);
        let b2 = mulshift_32(DCT_COS_EVEN[i], a1.wrapping_sub(a2)).wrapping_mul(DCT_SC1[i]);
        y[i] = b0.wrapping_add(b1);
        y[15 - i] = mulshift_32(DCT_COS_MID[i], b0.wrapping_sub(b1)).wrapping_mul(DCT_SC2[i]);
        y[16 + i] = b2.wrapping_add(b3);
        y[31 - i] = mulshift_32(DCT_COS_MID[i], b3.wrapping_sub(b2)).wrapping_mul(DCT_SC2[i]);
        proof {
            assert(p1_written(y@, x@, i as int));
            assert forall|j: int| 0 <= j < i implies #[trigger] p1_written(y@, x@, j) by {
                assert(p1_written(y0, x@, j));
            }
        }
        i += 1;
    }
    proof {
        assert forall|k: int| 0 <= k < 32 implies y@[k] == pass1_val(x@, k) by {
            if k < 8 {
                assert(p1_written(y@, x@, k));
            } else if k < 16 {
                assert(p1_written(y@, x@, 15 - k));
            } else if k < 24 {
                assert(p1_written(y@, x@, k - 16));
            } else {
                assert(p1_written(y@, x@, 31 - k));
            }
        }
    }
    y
}

/// The eight outputs chunk `c` of the second pass writes.
pub open spec fn p2_written(w: Seq<i32>, y: Seq<i32>, c: int) -> bool {
    forall|j: int| 0 <= j < 8 ==> w[8 * c + j] == #[trigger] pass2_val(y, 8 * c + j)
}

#[verifier::rlimit(60)]
fn pass2(y: &[i32; 32]) -> (w: [i32; 32])
    ensures
        forall|k: int| 0 <= k < 32 ==> w@[k] == pass2_val(y@, k),
{
    let mut w = [0i32; 32];
    let mut c: usize = 0;
    while c < 4
        invariant
            c <= 4,
            forall|u: int| 0 <= u < c ==> #[trigger] p2_written(w@, y@, u),
        decreases 4 - c,
    {
        let ghost w0 = w@;
        let b0 = y[8 * c].wrapping_add(y[8 * c + 7]);
        let b7 = mulshift_32(DCT_C2A[c], y[8 * c].wrapping_sub(y[8 * c + 7])).wrapping_mul(2);
        let b3 = y[8 * c + 3].wrapping_add(y[8 * c + 4]);
        let b4 = mulshift_32(DCT_C2B[c], y[8 * c + 3].wrapping_sub(y[8 * c + 4])).wrapping_mul(8);
        let t0 = b0.wrapping_add(b3);
        let t3 = mulshift_32(DCT_C3A, b0.wrapping_sub(b3)).wrapping_mul(2);
        let t4 = b4.wrapping_add(b7);
        let t7 = mulshift_32(DCT_C3A, b7.wrapping_sub(b4)).wrapping_mul(2);
        let b1 = y[8 * c + 1].wrapping_add(y[8 * c + 6]);
        let b6 = mulshift_32(DCT_C2C[c], y[8 * c + 1].wrapping_sub(y[8 * c + 6])).wrapping_mul(2);
        let b2 = y[8 * c + 2].wrapping_add(y[8 * c + 5]);
        let b5 = mulshift_32(DCT_C2D[c], y[8 * c + 2].wrapping_sub(y[8 * c + 5])).wrapping_mul(2);
        let t1 = b1.wrapping_add(b2);
        let t2 = mulshift_32(DCT_C3B, b1.wrapping_sub(b2)).wrapping_mul(4);
        let t5 = b5.wrapping_add(b6);
        let t6 = mulshift_32(DCT_C3B, b6.wrapping_sub(b5)).wrapping_mul(4);
        let bb0 = t0.wrapping_add(t1);
        let bb1 = mulshift_32(DCT_C4, t0.wrapping_sub(t1)).wrapping_mul(2);
        let bb2 = t2.wrapping_add(t3);
        let bb3 = mulshift_32(DCT_C4, t3.wrapping_sub(t2)).wrapping_mul(2);
        let bb4 = t4.wrapping_add(t5);
        let bb5 = mulshift_32(DCT_C4, t4.wrapping_sub(t5)).wrapping_mul(2);
        let bb6 = t6.wrapping_add(t7);
        let bb7 = mulshift_32(DCT_C4, t7.wrapping_sub(t6)).wrapping_mul(2);
        let bb6s = bb6.wrapping_add(bb7);
        w[8 * c] = bb0;
        w[8 * c + 1] = bb1;
        w[8 * c + 2] = bb2.wrapping_add(bb3);
        w[8 * c + 3] = bb3;
        w[8 * c + 4] = bb4.wrapping_add(bb6s);
        w[8 * c + 5] = bb5.wrapping_add(bb7);
        w[8 * c + 6] = bb5.wrapping_add(bb6s);
        w[8 * c + 7] = bb7;
        proof {
            let cc = c as int;
            assert forall|j: int| 0 <= j < 8 implies w@[8 * cc + j] == #[trigger] pass2_val(
                y@,
                8 * cc + j,
            ) by {
                assert((8 * cc + j) / 8 == cc);
                assert((8 * cc + j) % 8 == j);
            }
            assert(p2_written(w@, y@, cc));
            assert forall|u: int| 0 <= u < c implies #[trigger] p2_written(w@, y@, u) by {
                assert(p2_written(w0, y@, u));
                assert forall|j: int| 0 <= j < 8 implies w@[8 * u + j] == #[trigger] pass2_val(
                    y@,
                    8 * u + j,
                ) by {
                    assert(w0[8 * u + j] == pass2_val(y@, 8 * u + j));
                }
            }
        }
        c += 1;
    }
    proof {
        assert forall|k: int| 0 <= k < 32 implies w@[k] == pass2_val(y@, k) by {
            let u = k / 8;
            assert(p2_written(w@, y@, u));
            assert(k == 8 * u + k % 8);
        }
    }
    w
}

/// The guard-bit shift applied to the input block: inputs are brought to
/// six leading sign bits before the transform.
pub open spec fn fdct_es(gb: int) -> nat {
    if gb < 6 {
        (6 - gb) as nat
    } else {
        0
    }
}

/// The transformed columns of an input block carrying `gb` guard bits.
pub open spec fn fdct32_vals(x: Seq<i32>, gb: int) -> Seq<i32> {
    fdct32_cols(Seq::new(32, |i: int| sar32(x[i], fdct_es(gb)) as i32))
}

/// A stored value: when the inputs were shifted down by `es`, the result
/// is saturated to `31 - es` significant bits and scaled back up.
pub open spec fn out_scale(v: i32, es: nat) -> i32 {
    if es == 0 {
        v
    } else {
        i32_specs::wrapping_mul(clip2n(v, (31 - es) as u32) as i32, pow2(es) as i32)
    }
}

/// Where the one-block-delayed sample 0 lands in the history.
pub open spec fn delay_pos(offset: int, odd: bool) -> int {
    1024 + (offset - (if odd {
        1int
    } else {
        0int
    })) % 8 + (if odd {
        0int
    } else {
        1088int
    })
}

/// Where output samples 16 to 31 land: stride 64, current half.
pub open spec fn hi_base(offset: int, odd: bool) -> int {
    offset + (if odd {
        1088int
    } else {
        0int
    })
}

/// Where output samples 1 to 16 land: stride 64, opposite half.
pub open spec fn lo_base(offset: int, odd: bool) -> int {
    16 + (offset - (if odd {
        1int
    } else {
        0int
    })) % 8 + (if odd {
        0int
    } else {
        1088int
    })
}

/// The column combination written `k` strides above `hi_base`.
pub open spec fn out_hi(w: Seq<i32>, k: int) -> i32 {
    if k == 0 {
        w[1]
    } else if k == 1 {
        wadd(w[17], wadd(w[25], w[29]))
    } else if k == 2 {
        wadd(w[9], w[13])
    } else if k == 3 {
        wadd(w[21], wadd(w[25], w[29]))
    } else if k == 4 {
        w[5]
    } else if k == 5 {
        wadd(w[21], wadd(w[29], w[27]))
    } else if k == 6 {
        wadd(w[13], w[11])
    } else if k == 7 {
        wadd(w[19], wadd(w[29], w[27]))
    } else if k == 8 {
        w[3]
    } else if k == 9 {
        wadd(w[19], wadd(w[27], w[31]))
    } else if k == 10 {
        wadd(w[11], w[15])
    } else if k == 11 {
        wadd(w[23], wadd(w[27], w[31]))
    } else if k == 12 {
        w[7]
    } else if k == 13 {
        wadd(w[23], w[31])
    } else if k == 14 {
        w[15]
    } else {
        w[31]
    }
}

/// The column combination written `k` strides above `lo_base`.
pub open spec fn out_lo(w: Seq<i32>, k: int) -> i32 {
    if k == 0 {
        w[1]
    } else if k == 1 {
        wadd(w[17], wadd(w[30], w[25]))
    } else if k == 2 {
        wadd(w[14], w[9])
    } else if k == 3 {
        wadd(w[22], wadd(w[30], w[25]))
    } else if k == 4 {
        w[6]
    } else if k == 5 {
        wadd(w[22], wadd(w[26], w[30]))
    } else if k == 6 {
        wadd(w[10], w[14])
    } else if k == 7 {
        wadd(w[18], wadd(w[26], w[30]))
    } else if k == 8 {
        w[2]
    } else if k == 9 {
        wadd(w[18], wadd(w[28], w[26]))
    } else if k == 10 {
        wadd(w[12], w[10])
    } else if k == 11 {
        wadd(w[20], wadd(w[28], w[26]))
    } else if k == 12 {
        w[4]
    } else if k == 13 {
        wadd(w[20], wadd(w[24], w[28]))
    } else if k == 14 {
        wadd(w[8], w[12])
    } else {
        wadd(w[16], wadd(w[24], w[28]))
    }
}

/// The first image of stride `k` of a block write.
pub open spec fn slot(base: int, k: int) -> int {
    base + 64 * k
}

/// One of the 32 slots a block write touches: two images, 8 apart, at
/// each of 16 strides of 64.
pub open spec fn block_pos(base: int, i: int) -> bool {
    exists|k: int| 0 <= k < 16 && (i == #[trigger] slot(base, k) || i == slot(base, k) + 8)
}

/// Every history slot one transform call writes.
pub open spec fn fdct_writes(offset: int, odd: bool, i: int) -> bool {
    ||| i == delay_pos(offset, odd)
    ||| i == delay_pos(offset, odd) + 8
    ||| block_pos(hi_base(offset, odd), i)
    ||| block_pos(lo_base(offset, odd), i)
}

fn shift_in(buf: &[i32; 32], es: u32) -> (r: [i32; 32])
    requires
        es <= 6,
    ensures
        forall|k: int| 0 <= k < 32 ==> r@[k] as int == sar32(buf@[k], es as nat),
{
    let mut r = [0i32; 32];
    let mut i: usize = 0;
    while i < 32
        invariant
            i <= 32,
            es <= 6,
            forall|k: int| 0 <= k < i ==> r@[k] as int == sar32(buf@[k], es as nat),
        decreases 32 - i,
    {
        r[i] = sar_32(buf[i], es);
        i += 1;
    }
    r
}

fn scale_out(v: i32, es: u32) -> (r: i32)
    requires
        es <= 6,
    ensures
        r == out_scale(v, es as nat),
{
    if es == 0 {
        v
    } else {
        proof {
            lemma2_to64();
            lemma_u32_shl_is_mul(1u32, es);
        }
        let c = clip_2n(v, 31 - es);
        let scale = (1u32 << es) as i32;
        c.wrapping_mul(scale)
    }
}

/// Write one value, scaled, into both images of one history slot.
fn store2(dest: &mut [i32], pos: usize, v: i32, es: u32)
    requires
        es <= 6,
        pos + 8 < old(dest)@.len(),
    ensures
        final(dest)@ == old(dest)@.update(pos as int, out_scale(v, es as nat)).update(
            pos + 8,
            out_scale(v, es as nat),
        ),
{
    let sv = scale_out(v, es);
    dest[pos] = sv;
    dest[pos + 8] = sv;
}

/// One written stride: both images of slot `base + 64 t` hold the scaled
/// value `t` of the block.
pub open spec fn blk_written(d: Seq<i32>, vals: Seq<i32>, base: int, es: nat, t: int) -> bool {
    &&& d[slot(base, t)] == out_scale(vals[t], es)
    &&& d[slot(base, t) + 8] == out_scale(vals[t], es)
}

/// A slot among the first `n` strides of a block write.
pub open spec fn block_pos_upto(base: int, n: int, i: int) -> bool {
    exists|k: int| 0 <= k < n && (i == #[trigger] slot(base, k) || i == slot(base, k) + 8)
}

/// Scatter 16 values into the history at stride 64, two images each.
fn write_block(dest: &mut [i32], base: usize, vals: &[i32; 16], es: u32)
    requires
        es <= 6,
        base + 64 * 15 + 8 < old(dest)@.len(),
    ensures
        final(dest)@.len() == old(dest)@.len(),
        forall|t: int| 0 <= t < 16 ==> #[trigger] blk_written(
            final(dest)@,
            vals@,
            base as int,
            es as nat,
            t,
        ),
        forall|i: int|
            0 <= i < old(dest)@.len() && !block_pos(base as int, i)
                ==> final(dest)@[i] == old(dest)@[i],
{
    let dlen: usize = dest.len();
    let mut k: usize = 0;
    while k < 16
        invariant
            es <= 6,
            dlen == dest@.len(),
            base + 64 * 15 + 8 < dest@.len(),
            dest@.len() == old(dest)@.len(),
            k <= 16,
            forall|t: int| 0 <= t < k ==> #[trigger] blk_written(
                dest@,
                vals@,
                base as int,
                es as nat,
                t,
            ),
            forall|i: int|
                0 <= i < dest@.len() && !block_pos_upto(base as int, k as int, i) ==> dest@[i]
                    == old(dest)@[i],
        decreases 16 - k,
    {
        let ghost d0 = dest@;
        store2(dest, base + 64 * k, vals[k], es);
        proof {
            let b = base as int;
            let kk = k as int;
            assert(slot(b, kk) == b + 64 * kk);
            assert(blk_written(dest@, vals@, b, es as nat, kk));
            assert forall|t: int| 0 <= t < kk implies #[trigger] blk_written(
                dest@,
                vals@,
                b,
                es as nat,
                t,
            ) by {
                assert(blk_written(d0, vals@, b, es as nat, t));
            }
            assert forall|i: int|
                0 <= i < dest@.len() && !block_pos_upto(b, kk + 1, i) implies dest@[i] == old(
                dest,
            )@[i] by {
                assert(slot(b, kk) == b + 64 * kk);
                if block_pos_upto(b, kk, i) {
                    let t = choose|t: int|
                        0 <= t < kk && (i == #[trigger] slot(b, t) || i == slot(b, t) + 8);
                    assert(block_pos_upto(b, kk + 1, i));
                }
            }
        }
        k += 1;
    }
    proof {
        assert forall|i: int|
            0 <= i < old(dest)@.len() && !block_pos(base as int, i) implies dest@[i] == old(
            dest,
        )@[i] by {
            if block_pos_upto(base as int, 16, i) {
                let t = choose|t: int|
                    0 <= t < 16 && (i == #[trigger] slot(base as int, t) || i == slot(
                        base as int,
                        t,
                    ) + 8);
                assert(block_pos(base as int, i));
            }
        }
    }
}

/// Scatter the 32 transformed columns into the history: samples 16 to 31
/// at stride 64 in the current half, samples 1 to 16 mirrored into the
/// opposite half, sample 0 one block delayed.
#[verifier::rlimit(100)]
#[verifier::spinoff_prover]
fn scatter(
    dest: &mut [i32],
    w: &[i32; 32],
    offset: usize,
    odd_block: bool,
    es: u32,
    Ghost(ws): Ghost<Seq<i32>>,
)
    requires
        es <= 6,
        offset < 32,
        old(dest)@.len() >= 2128,
        ws.len() == 32,
        forall|k: int| 0 <= k < 32 ==> w@[k] == ws[k],
    ensures
        final(dest)@.len() == old(dest)@.len(),
        final(dest)@[delay_pos(offset as int, odd_block)] == out_scale(ws[0], es as nat),
        final(dest)@[delay_pos(offset as int, odd_block) + 8] == out_scale(ws[0], es as nat),
        forall|k: int|
            0 <= k < 16 ==> final(dest)@[hi_base(offset as int, odd_block) + 64 * k] == out_scale(
                #[trigger] out_hi(ws, k),
                es as nat,
            ) && final(dest)@[hi_base(offset as int, odd_block) + 64 * k + 8] == out_scale(
                out_hi(ws, k),
                es as nat,
            ),
        forall|k: int|
            0 <= k < 16 ==> final(dest)@[lo_base(offset as int, odd_block) + 64 * k] == out_scale(
                #[trigger] out_lo(ws, k),
                es as nat,
            ) && final(dest)@[lo_base(offset as int, odd_block) + 64 * k + 8] == out_scale(
                out_lo(ws, k),
                es as nat,
            ),
        forall|i: int|
            0 <= i < old(dest)@.len() && !fdct_writes(offset as int, odd_block, i)
                ==> final(dest)@[i] == old(dest)@[i],
{
    let od: usize = if odd_block {
        1
    } else {
        0
    };
    let hm = (offset + 8 - od) % 8;
    let half_a: usize = if odd_block {
        0
    } else {
        1088
    };
    let half_b: usize = if odd_block {
        1088
    } else {
        0
    };
    let hi_b = offset + half_b;
    let lo_b = 16 + hm + half_a;
    let delay = 1024 + hm + half_a;
    proof {
        vstd::arithmetic::div_mod::lemma_mod_add_multiples_vanish(
            offset - (if odd_block {
                1int
            } else {
                0int
            }),
            8,
        );
        assert(hm == (offset - (if odd_block {
            1int
        } else {
            0int
        })) % 8);
        assert(hi_b == hi_base(offset as int, odd_block));
        assert(lo_b == lo_base(offset as int, odd_block));
        assert(delay == delay_pos(offset as int, odd_block));
    }
    let hv: [i32; 16] = [
        w[1],
        w[17].wrapping_add(w[25].wrapping_add(w[29])),
        w[9].wrapping_add(w[13]),
        w[21].wrapping_add(w[25].wrapping_add(w[29])),
        w[5],
        w[21].wrapping_add(w[29].wrapping_add(w[27])),
        w[13].wrapping_add(w[11]),
        w[19].wrapping_add(w[29].wrapping_add(w[27])),
        w[3],
        w[19].wrapping_add(w[27].wrapping_add(w[31])),
        w[11].wrapping_add(w[15]),
        w[23].wrapping_add(w[27].wrapping_add(w[31])),
        w[7],
        w[23].wrapping_add(w[31]),
        w[15],
        w[31],
    ];
    let lv: [i32; 16] = [
        w[1],
        w[17].wrapping_add(w[30].wrapping_add(w[25])),
        w[14].wrapping_add(w[9]),
        w[22].wrapping_add(w[30].wrapping_add(w[25])),
        w[6],
        w[22].wrapping_add(w[26].wrapping_add(w[30])),
        w[10].wrapping_add(w[14]),
        w[18].wrapping_add(w[26].wrapping_add(w[30])),
        w[2],
        w[18].wrapping_add(w[28].wrapping_add(w[26])),
        w[12].wrapping_add(w[10]),
        w[20].wrapping_add(w[28].wrapping_add(w[26])),
        w[4],
        w[20].wrapping_add(w[24].wrapping_add(w[28])),
        w[8].wrapping_add(w[12]),
        w[16].wrapping_add(w[24].wrapping_add(w[28])),
    ];
    proof {
        assert forall|k: int| 0 <= k < 16 implies hv@[k] == #[trigger] out_hi(ws, k) && lv@[k]
            == #[trigger] out_lo(ws, k) by {
            if k == 0 {
                assert(hv@[0] == out_hi(ws, 0));
                assert(lv@[0] == out_lo(ws, 0));
            } else if k == 1 {
                assert(hv@[1] == out_hi(ws, 1));
                assert(lv@[1] == out_lo(ws, 1));
            } else if k == 2 {
                assert(hv@[2] == out_hi(ws, 2));
                assert(lv@[2] == out_lo(ws, 2));
            } else if k == 3 {
                assert(hv@[3] == out_hi(ws, 3));
                assert(lv@[3] == out_lo(ws, 3));
            } else if k == 4 {
                assert(hv@[4] == out_hi(ws, 4));
                assert(lv@[4] == out_lo(ws, 4));
            } else if k == 5 {
                assert(hv@[5] == out_hi(ws, 5));
                assert(lv@[5] == out_lo(ws, 5));
            } else if k == 6 {
                assert(hv@[6] == out_hi(ws, 6));
                assert(lv@[6] == out_lo(ws, 6));
            } else if k == 7 {
                assert(hv@[7] == out_hi(ws, 7));
                assert(lv@[7] == out_lo(ws, 7));
            } else if k == 8 {
                assert(hv@[8] == out_hi(ws, 8));
                assert(lv@[8] == out_lo(ws, 8));
            } else if k == 9 {
                assert(hv@[9] == out_hi(ws, 9));
                assert(lv@[9] == out_lo(ws, 9));
            } else if k == 10 {
                assert(hv@[10] == out_hi(ws, 10));
                assert(lv@[10] == out_lo(ws, 10));
            } else if k == 11 {
                assert(hv@[11] == out_hi(ws, 11));
                assert(lv@[11] == out_lo(ws, 11));
            } else if k == 12 {
                assert(hv@[12] == out_hi(ws, 12));
                assert(lv@[12] == out_lo(ws, 12));
            } else if k == 13 {
                assert(hv@[13] == out_hi(ws, 13));
                assert(lv@[13] == out_lo(ws, 13));
            } else if k == 14 {
                assert(hv@[14] == out_hi(ws, 14));
                assert(lv@[14] == out_lo(ws, 14));
            } else {
                assert(hv@[15] == out_hi(ws, 15));
                assert(lv@[15] == out_lo(ws, 15));
            }
        }
    }
    let ghost d_orig = dest@;
    write_block(dest, hi_b, &hv, es);
    let ghost d_hi = dest@;
    write_block(dest, lo_b, &lv, es);
    let ghost d_lo = dest@;
    store2(dest, delay, w[0], es);
    proof {
        let o = offset as int;
        let eg = es as nat;
        // the three write regions are pairwise disjoint
        assert forall|i: int| block_pos(hi_b as int, i) implies !block_pos(lo_b as int, i) && i
            != delay && i != delay + 8 by {
            let k1 = choose|k: int|
                0 <= k < 16 && (i == #[trigger] slot(hi_b as int, k) || i == slot(hi_b as int, k)
                    + 8);
            if block_pos(lo_b as int, i) {
                let k2 = choose|k: int|
                    0 <= k < 16 && (i == #[trigger] slot(lo_b as int, k) || i == slot(
                        lo_b as int,
                        k,
                    ) + 8);
            }
        }
        assert forall|i: int| block_pos(lo_b as int, i) implies i != delay && i != delay
            + 8 by {
            let k2 = choose|k: int|
                0 <= k < 16 && (i == #[trigger] slot(lo_b as int, k) || i == slot(lo_b as int, k)
                    + 8);
        }
        // hi block values survive the two later writes
        assert forall|k: int|
            0 <= k < 16 implies dest@[hi_base(o, odd_block) + 64 * k] == out_scale(
            #[trigger] out_hi(ws, k),
            eg,
        ) && dest@[hi_base(o, odd_block) + 64 * k + 8] == out_scale(out_hi(ws, k), eg) by {
            assert(blk_written(d_hi, hv@, hi_b as int, es as nat, k));
            assert(slot(hi_b as int, k) == hi_b + 64 * k);
            assert(block_pos(hi_b as int, hi_b + 64 * k));
            assert(block_pos(hi_b as int, hi_b + 64 * k + 8));
        }
        // lo block values survive the delayed-sample write
        assert forall|k: int|
            0 <= k < 16 implies dest@[lo_base(o, odd_block) + 64 * k] == out_scale(
            #[trigger] out_lo(ws, k),
            eg,
        ) && dest@[lo_base(o, odd_block) + 64 * k + 8] == out_scale(out_lo(ws, k), eg) by {
            assert(blk_written(d_lo, lv@, lo_b as int, es as nat, k));
            assert(slot(lo_b as int, k) == lo_b + 64 * k);
            assert(block_pos(lo_b as int, lo_b + 64 * k));
            assert(block_pos(lo_b as int, lo_b + 64 * k + 8));
        }
        assert(dest@[delay as int] == out_scale(ws[0], eg));
        assert(dest@[delay as int + 8] == out_scale(ws[0], eg));
        // everything outside the written slots is untouched
        assert forall|i: int|
            0 <= i < d_orig.len() && !fdct_writes(o, odd_block, i) implies dest@[i]
            == d_orig[i] by {
            assert(!block_pos(hi_b as int, i));
            assert(!block_pos(lo_b as int, i));
        }
    }
}

/// The 32-point DCT of one subband block: transform the 32 input samples
/// (shifting them first when they carry fewer than six guard bits) and
/// write the columns into the double-buffered history at `offset`,
/// duplicated 8 slots apart.
pub fn fdct_32(buf: &[i32; 32], dest: &mut [i32], offset: usize, odd_block: bool, gb: i32)
    requires
        offset < 32,
        0 <= gb,
        old(dest)@.len() >= 2128,
    ensures
        final(dest)@.len() == old(dest)@.len(),
        final(dest)@[delay_pos(offset as int, odd_block)] == out_scale(
            fdct32_vals(buf@, gb as int)[0],
            fdct_es(gb as int),
        ),
        final(dest)@[delay_pos(offset as int, odd_block) + 8] == out_scale(
            fdct32_vals(buf@, gb as int)[0],
            fdct_es(gb as int),
        ),
        forall|k: int|
            0 <= k < 16 ==> final(dest)@[hi_base(offset as int, odd_block) + 64 * k] == out_scale(
                #[trigger] out_hi(fdct32_vals(buf@, gb as int), k),
                fdct_es(gb as int),
            ) && final(dest)@[hi_base(offset as int, odd_block) + 64 * k + 8] == out_scale(
                out_hi(fdct32_vals(buf@, gb as int), k),
                fdct_es(gb as int),
            ),
        forall|k: int|
            0 <= k < 16 ==> final(dest)@[lo_base(offset as int, odd_block) + 64 * k] == out_scale(
                #[trigger] out_lo(fdct32_vals(buf@, gb as int), k),
                fdct_es(gb as int),
            ) && final(dest)@[lo_base(offset as int, odd_block) + 64 * k + 8] == out_scale(
                out_lo(fdct32_vals(buf@, gb as int), k),
                fdct_es(gb as int),
            ),
        forall|i: int|
            0 <= i < old(dest)@.len() && !fdct_writes(offset as int, odd_block, i)
                ==> final(dest)@[i] == old(dest)@[i],
{
    let es: u32 = if gb < 6 {
        (6 - gb) as u32
    } else {
        0
    };
    let xs = shift_in(buf, es);
    proof {
        assert(xs@ =~= Seq::new(32, |i: int| sar32(buf@[i], fdct_es(gb as int)) as i32));
    }
    let y = pass1(&xs);
    let w = pass2(&y);
    let ghost ws = fdct32_vals(buf@, gb as int);
    proof {
        assert(y@ =~= pass1_seq(xs@));
        assert forall|k: int| 0 <= k < 32 implies w@[k] == ws[k] by {
            assert(w@[k] == pass2_val(pass1_seq(xs@), k));
            assert(ws[k] == pass2_val(pass1_seq(xs@), k));
        }
        assert(es as nat == fdct_es(gb as int));
    }
    scatter(dest, &w, offset, odd_block, es, Ghost(ws));
}

} // verus!

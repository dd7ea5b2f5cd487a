//! Fixed-point inverse MDCT building blocks: the 12-point transform used
//! for short blocks and the 9-point IDCT at the heart of the 36-point
//! transform.
//!
//! Inputs must carry at least five guard bits (magnitudes at most 2^26),
//! which bounds every intermediate of the butterfly chains inside `i32`.

use vstd::prelude::*;

verus! {

use crate::qmath::{mulshift_32, sar_32, lemma_mulshift32_bound};
use vstd::arithmetic::power2::lemma2_to64;

/// cos(pi/6) in Q31 format.
pub const C3_0: i32 = 0x6ed9eba1;

/// cos(0.5 * pi / 6) in Q31 format.
pub const C6_0: i32 = 0x7ba3751d;

/// cos(1.5 * pi / 6) in Q31 format.
pub const C6_1: i32 = 0x5a82799a;

/// cos(2.5 * pi / 6) in Q31 format.
pub const C6_2: i32 = 0x2120fb83;

pub const C9_0: i32 = 0x6ed9eba1;

pub const C9_1: i32 = 0x620dbe8b;

pub const C9_2: i32 = 0x163a1a7e;

pub const C9_3: i32 = 0x5246dd49;

pub const C9_4: i32 = 0x7e0e2e32;

/// The six outputs of the 12-point IMDCT on inputs
/// `x[0], x[3], ..., x[15]`, over exact integer arithmetic.
pub open spec fn imdct12_spec(x: Seq<i32>) -> Seq<int> {
    let x0 = x[0] as int;
    let x1 = x[3] as int;
    let x2 = x[6] as int;
    let x3 = x[9] as int;
    let x4 = x[12] as int;
    let x5 = x[15] as int;
    let t4 = x4 - x5;
    let t3a = x3 - t4;
    let t2 = x2 - t3a;
    let t3 = t3a - x5;
    let t1a = x1 - t2;
    let t0a = x0 - t1a;
    let t1b = t1a - t3;
    let t0 = t0a / 2;
    let t1 = t1b / 2;
    let ea0 = 2 * mulshift32i(C3_0 as int, t2);
    let ea1 = t0 + t4 / 2;
    let ea2 = t0 - t4;
    let even0 = ea1 + ea0;
    let even2 = ea2;
    let even4 = ea1 - ea0;
    let oa0 = 2 * mulshift32i(C3_0 as int, t3);
    let oa1 = t1 + x5 / 2;
    let oa2 = t1 - x5;
    let odd1 = 4 * mulshift32i(C6_0 as int, oa1 + oa0);
    let odd3 = 4 * mulshift32i(C6_1 as int, oa2);
    let odd5 = 4 * mulshift32i(C6_2 as int, oa1 - oa0);
    seq![
        even0 + odd1,
        even2 + odd3,
        even4 + odd5,
        even4 - odd5,
        even2 - odd3,
        even0 - odd1,
    ]
}

/// The floor of `x * y / 2^32` over unbounded integers.
pub open spec fn mulshift32i(x: int, y: int) -> int {
    (x * y) / 0x1_0000_0000
}

/// 12-point IMDCT for short blocks: reads coefficients
/// `x[0], x[3], ..., x[15]` and writes 6 time-domain samples.
#[verifier::rlimit(100)]
#[verifier::spinoff_prover]
pub fn imdct_12(x: &[i32; 18], out: &mut [i32; 6])
    requires
        forall|i: int|
            (i == 0 || i == 3 || i == 6 || i == 9 || i == 12 || i == 15)
                ==> -0x0400_0000 <= #[trigger] x@[i] <= 0x0400_0000,
    ensures
        forall|k: int| 0 <= k < 6 ==> final(out)@[k] as int == imdct12_spec(x@)[k],
{
    proof {
        lemma2_to64();
    }
    let x0 = x[0];
    let x1 = x[3];
    let x2 = x[6];
    let x3 = x[9];
    let x4 = x[12];
    let x5 = x[15];

    let t4 = x4 - x5;
    let t3a = x3 - t4;
    let t2 = x2 - t3a;
    let t3 = t3a - x5;
    let t1a = x1 - t2;
    let t0a = x0 - t1a;
    let t1b = t1a - t3;

    let t0 = sar_32(t0a, 1);
    let t1 = sar_32(t1b, 1);

    proof {
        lemma_mulshift32_bound(C3_0, t2, 0x1000_0000);
    }
    let ea0 = mulshift_32(C3_0, t2) * 2;
    let ea1 = t0 + sar_32(t4, 1);
    let ea2 = t0 - t4;

    let even0 = ea1 + ea0;
    let even2 = ea2;
    let even4 = ea1 - ea0;

    proof {
        lemma_mulshift32_bound(C3_0, t3, 0x1000_0000);
    }
    let oa0 = mulshift_32(C3_0, t3) * 2;
    let oa1 = t1 + sar_32(x5, 1);
    let oa2 = t1 - x5;

    proof {
        lemma_mulshift32_bound(C6_0, ((oa1 + oa0) as i32), 0x2800_0000);
        lemma_mulshift32_bound(C6_1, oa2, 0x1800_0000);
        lemma_mulshift32_bound(C6_2, ((oa1 - oa0) as i32), 0x2800_0000);
    }
    let odd1 = mulshift_32(C6_0, oa1 + oa0) * 4;
    let odd3 = mulshift_32(C6_1, oa2) * 4;
    let odd5 = mulshift_32(C6_2, oa1 - oa0) * 4;

    out[0] = even0 + odd1;
    out[1] = even2 + odd3;
    out[2] = even4 + odd5;
    out[3] = even4 - odd5;
    out[4] = even2 - odd3;
    out[5] = even0 - odd1;
}

/// The nine outputs of the in-place 9-point IDCT, over exact integer
/// arithmetic.
pub open spec fn idct9_spec(x: Seq<i32>) -> Seq<int> {
    let x0 = x[0] as int;
    let x1 = x[1] as int;
    let x2 = x[2] as int;
    let x3 = x[3] as int;
    let x4 = x[4] as int;
    let x5 = x[5] as int;
    let x6 = x[6] as int;
    let x7 = x[7] as int;
    let x8 = x[8] as int;
    let a1 = x0 - x6;
    let a2 = x1 - x5;
    let a3 = x1 + x5;
    let a4 = x2 - x4;
    let a5 = x2 + x4;
    let a6 = x2 + x8;
    let a7 = x1 + x7;
    let a8 = a6 - a5;
    let a9 = a3 - a7;
    let a10 = a2 - x7;
    let a11 = a4 - x8;
    let m1 = mulshift32i(C9_0 as int, x3);
    let m3 = mulshift32i(C9_0 as int, a10);
    let m5 = mulshift32i(C9_1 as int, a5);
    let m6 = mulshift32i(C9_2 as int, a6);
    let m7 = mulshift32i(C9_1 as int, a8);
    let m8 = mulshift32i(C9_2 as int, a5);
    let m9 = mulshift32i(C9_3 as int, a9);
    let m10 = mulshift32i(C9_4 as int, a7);
    let m11 = mulshift32i(C9_3 as int, a3);
    let m12 = mulshift32i(C9_4 as int, a9);
    let a12 = x0 + x6 / 2;
    let a13 = a12 + 2 * m1;
    let a14 = a12 - 2 * m1;
    let a15 = a1 + a11 / 2;
    let a16 = 2 * m5 + 2 * m6;
    let a17 = 2 * m7 - 2 * m8;
    let a18 = a16 + a17;
    let a19 = 2 * m9 + 2 * m10;
    let a20 = 2 * m11 - 2 * m12;
    let a21 = a20 - a19;
    let a22 = a13 + a16;
    let a23 = a14 + a16;
    let a24 = a14 + a17;
    let a25 = a13 + a17;
    let a26 = a14 - a18;
    let a27 = a13 - a18;
    seq![
        a22 + a19,
        a15 + 2 * m3,
        a24 + a20,
        a26 - a21,
        a1 - a11,
        a27 + a21,
        a25 - a20,
        a15 - 2 * m3,
        a23 - a19,
    ]
}

/// In-place 9-point IDCT (even/odd decomposition of the 18-point stage of
/// the 36-point IMDCT).
#[verifier::rlimit(100)]
#[verifier::spinoff_prover]
pub fn idct_9(x: &mut [i32; 9])
    requires
        forall|i: int| 0 <= i < 9 ==> -0x0400_0000 <= #[trigger] old(x)@[i] <= 0x0400_0000,
    ensures
        forall|k: int| 0 <= k < 9 ==> final(x)@[k] as int == idct9_spec(old(x)@)[k],
{
    proof {
        lemma2_to64();
    }
    let x0 = x[0];
    let x1 = x[1];
    let x2 = x[2];
    let x3 = x[3];
    let x4 = x[4];
    let x5 = x[5];
    let x6 = x[6];
    let x7 = x[7];
    let x8 = x[8];

    let a1 = x0 - x6;
    let a2 = x1 - x5;
    let a3 = x1 + x5;
    let a4 = x2 - x4;
    let a5 = x2 + x4;
    let a6 = x2 + x8;
    let a7 = x1 + x7;

    let a8 = a6 - a5;
    let a9 = a3 - a7;
    let a10 = a2 - x7;
    let a11 = a4 - x8;

    proof {
        lemma_mulshift32_bound(C9_0, x3, 0x0400_0000);
        lemma_mulshift32_bound(C9_0, a10, 0x0C00_0000);
        lemma_mulshift32_bound(C9_1, a5, 0x0800_0000);
        lemma_mulshift32_bound(C9_2, a6, 0x0800_0000);
        lemma_mulshift32_bound(C9_1, a8, 0x1000_0000);
        lemma_mulshift32_bound(C9_2, a5, 0x0800_0000);
        lemma_mulshift32_bound(C9_3, a9, 0x1000_0000);
        lemma_mulshift32_bound(C9_4, a7, 0x0800_0000);
        lemma_mulshift32_bound(C9_3, a3, 0x0800_0000);
        lemma_mulshift32_bound(C9_4, a9, 0x1000_0000);
    }
    let m1 = mulshift_32(C9_0, x3);
    let m3 = mulshift_32(C9_0, a10);
    let m5 = mulshift_32(C9_1, a5);
    let m6 = mulshift_32(C9_2, a6);
    let m7 = mulshift_32(C9_1, a8);
    let m8 = mulshift_32(C9_2, a5);
    let m9 = mulshift_32(C9_3, a9);
    let m10 = mulshift_32(C9_4, a7);
    let m11 = mulshift_32(C9_3, a3);
    let m12 = mulshift_32(C9_4, a9);

    let a12 = x0 + sar_32(x6, 1);
    let a13 = a12 + (m1 * 2);
    let a14 = a12 - (m1 * 2);
    let a15 = a1 + sar_32(a11, 1);
    let a16 = (m5 * 2) + (m6 * 2);
    let a17 = (m7 * 2) - (m8 * 2);
    let a18 = a16 + a17;
    let a19 = (m9 * 2) + (m10 * 2);
    let a20 = (m11 * 2) - (m12 * 2);

    let a21 = a20 - a19;
    let a22 = a13 + a16;
    let a23 = a14 + a16;
    let a24 = a14 + a17;
    let a25 = a13 + a17;
    let a26 = a14 - a18;
    let a27 = a13 - a18;

    x[0] = a22 + a19;
    x[1] = a15 + (m3 * 2);
    x[2] = a24 + a20;
    x[3] = a26 - a21;
    x[4] = a1 - a11;
    x[5] = a27 + a21;
    x[6] = a25 - a20;
    x[7] = a15 - (m3 * 2);
    x[8] = a23 - a19;
}

} // verus!

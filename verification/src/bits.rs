//! MSB-first bitstream cache over a byte slice.
//!
//! The reader's abstract state is the sequence of bits still to be
//! delivered: the valid high bits of the 32-bit cache followed by the bits
//! of the remaining bytes, most significant first. Reads past the end of
//! the stream deliver zero bits.

use vstd::prelude::*;

verus! {

use vstd::arithmetic::power2::{pow2, lemma2_to64, lemma_pow2_pos, lemma_pow2_adds};
use vstd::slice::slice_subrange;

/// Bit `i` (most significant first, `i < 32`) of a 32-bit word.
pub open spec fn u32_bit(c: u32, i: int) -> bool {
    (c >> ((31 - i) as u32)) & 1 == 1
}

/// Bit `i` (most significant first, `i < 8`) of a byte.
pub open spec fn u8_bit(b: u8, i: int) -> bool {
    ((b as u32) >> ((7 - i) as u32)) & 1 == 1
}

/// The top `n` bits of a 32-bit word, most significant first.
pub open spec fn u32_bits_msb(c: u32, n: nat) -> Seq<bool> {
    Seq::new(n, |i: int| u32_bit(c, i))
}

/// The 8 bits of a byte, most significant first.
pub open spec fn u8_bits_msb(b: u8) -> Seq<bool> {
    Seq::new(8, |i: int| u8_bit(b, i))
}

/// The bits of a byte sequence, most significant bit of the first byte
/// first.
pub open spec fn bytes_bits(s: Seq<u8>) -> Seq<bool>
    decreases s.len(),
{
    if s.len() == 0 {
        Seq::empty()
    } else {
        u8_bits_msb(s[0]) + bytes_bits(s.skip(1))
    }
}

/// The value of a bit string read as a binary numeral, most significant
/// bit first.
pub open spec fn bits_value(s: Seq<bool>) -> int
    decreases s.len(),
{
    if s.len() == 0 {
        0
    } else {
        2 * bits_value(s.drop_last()) + (if s.last() {
            1int
        } else {
            0int
        })
    }
}

pub proof fn lemma_bits_value_bound(s: Seq<bool>)
    ensures
        0 <= bits_value(s) < pow2(s.len()),
    decreases s.len(),
{
    if s.len() == 0 {
        lemma2_to64();
    } else {
        lemma_bits_value_bound(s.drop_last());
        lemma_pow2_adds((s.len() - 1) as nat, 1);
        lemma2_to64();
    }
}

/// Reading a concatenation: the left part carries a place value of
/// 2^(length of the right part).
pub proof fn lemma_bits_value_concat(s: Seq<bool>, t: Seq<bool>)
    ensures
        bits_value(s + t) == bits_value(s) * pow2(t.len()) + bits_value(t),
    decreases t.len(),
{
    if t.len() == 0 {
        assert(s + t =~= s);
        lemma2_to64();
        assert(pow2(t.len()) == 1);
        assert(bits_value(t) == 0);
        assert(bits_value(s + t) == bits_value(s) * pow2(t.len()) + bits_value(t));
    } else {
        lemma_bits_value_concat(s, t.drop_last());
        assert((s + t).drop_last() =~= s + t.drop_last());
        assert((s + t).last() == t.last());
        lemma_pow2_adds((t.len() - 1) as nat, 1);
        lemma2_to64();
        assert(bits_value(s) * pow2(t.len()) == 2 * (bits_value(s) * pow2((t.len() - 1) as nat)))
            by (nonlinear_arith)
            requires
                pow2(t.len()) == pow2((t.len() - 1) as nat) * pow2(1),
                pow2(1) == 2,
        ;
        assert(bits_value(s + t) == 2 * bits_value(s + t.drop_last()) + (if t.last() {
            1int
        } else {
            0int
        }));
        assert(bits_value(t) == 2 * bits_value(t.drop_last()) + (if t.last() {
            1int
        } else {
            0int
        }));
        assert(bits_value(s + t.drop_last()) == bits_value(s) * pow2(t.drop_last().len())
            + bits_value(t.drop_last()));
        assert(t.drop_last().len() == t.len() - 1);
        assert(bits_value(s + t) == 2 * (bits_value(s) * pow2((t.len() - 1) as nat)) + 2
            * bits_value(t.drop_last()) + (if t.last() {
            1int
        } else {
            0int
        }));
        assert(bits_value(s + t) == bits_value(s) * pow2(t.len()) + bits_value(t));
    }
}

pub proof fn lemma_bytes_bits_len(s: Seq<u8>)
    ensures
        bytes_bits(s).len() == 8 * s.len(),
    decreases s.len(),
{
    if s.len() > 0 {
        lemma_bytes_bits_len(s.skip(1));
    }
}

/// Four bytes packed big-endian into a 32-bit word.
pub open spec fn pack32(b0: u8, b1: u8, b2: u8, b3: u8) -> u32 {
    ((b0 as u32) << 24) | ((b1 as u32) << 16) | ((b2 as u32) << 8) | (b3 as u32)
}

proof fn lemma_pack_bit(b0: u8, b1: u8, b2: u8, b3: u8, i: u32)
    by (bit_vector)
    requires
        i < 32,
    ensures
        (pack32(b0, b1, b2, b3) >> ((31 - i) as u32)) & 1 == (if i < 8 {
            ((b0 as u32) >> ((7 - i) as u32)) & 1
        } else if i < 16 {
            ((b1 as u32) >> ((15 - i) as u32)) & 1
        } else if i < 24 {
            ((b2 as u32) >> ((23 - i) as u32)) & 1
        } else {
            ((b3 as u32) >> ((31 - i) as u32)) & 1
        }),
{
}

proof fn lemma_pack_wf(b0: u8, b1: u8, b2: u8, b3: u8, k: u32)
    by (bit_vector)
    requires
        k == 8 || k == 16 || k == 24 || k == 32,
        k <= 8 ==> b1 == 0,
        k <= 16 ==> b2 == 0,
        k <= 24 ==> b3 == 0,
    ensures
        pack32(b0, b1, b2, b3) << k == 0,
{
}

/// The 32 packed bits are the four bytes' bits in order.
proof fn lemma_pack_seq(b0: u8, b1: u8, b2: u8, b3: u8)
    ensures
        u32_bits_msb(pack32(b0, b1, b2, b3), 32) == u8_bits_msb(b0) + u8_bits_msb(b1)
            + u8_bits_msb(b2) + u8_bits_msb(b3),
{
    let c = pack32(b0, b1, b2, b3);
    let rhs = u8_bits_msb(b0) + u8_bits_msb(b1) + u8_bits_msb(b2) + u8_bits_msb(b3);
    assert forall|i: int| 0 <= i < 32 implies u32_bits_msb(c, 32)[i] == rhs[i] by {
        lemma_pack_bit(b0, b1, b2, b3, i as u32);
        assert((31 - (i as u32)) as u32 == (31 - i) as u32);
        if i < 8 {
            assert((7 - (i as u32)) as u32 == (7 - i) as u32);
        } else if i < 16 {
            assert((15 - (i as u32)) as u32 == (7 - (i - 8)) as u32);
        } else if i < 24 {
            assert((23 - (i as u32)) as u32 == (7 - (i - 16)) as u32);
        } else {
            assert((31 - (i as u32)) as u32 == (7 - (i - 24)) as u32);
        }
    };
    assert(u32_bits_msb(c, 32) =~= rhs);
}

/// Unrolling the first four bytes of a byte stream's bits.
proof fn lemma_bytes_bits_unfold4(s: Seq<u8>)
    requires
        s.len() >= 4,
    ensures
        bytes_bits(s) == u8_bits_msb(s[0]) + u8_bits_msb(s[1]) + u8_bits_msb(s[2]) + u8_bits_msb(
            s[3],
        ) + bytes_bits(s.skip(4)),
    decreases s.len(),
{
    assert(s.skip(1).skip(1) =~= s.skip(2));
    assert(s.skip(2).skip(1) =~= s.skip(3));
    assert(s.skip(3).skip(1) =~= s.skip(4));
    assert(s.skip(1)[0] == s[1]);
    assert(s.skip(2)[0] == s[2]);
    assert(s.skip(3)[0] == s[3]);
    assert(bytes_bits(s) == u8_bits_msb(s[0]) + bytes_bits(s.skip(1)));
    assert(bytes_bits(s.skip(1)) == u8_bits_msb(s[1]) + bytes_bits(s.skip(2)));
    assert(bytes_bits(s.skip(2)) == u8_bits_msb(s[2]) + bytes_bits(s.skip(3)));
    assert(bytes_bits(s.skip(3)) == u8_bits_msb(s[3]) + bytes_bits(s.skip(4)));
    assert(bytes_bits(s) =~= u8_bits_msb(s[0]) + u8_bits_msb(s[1]) + u8_bits_msb(s[2])
        + u8_bits_msb(s[3]) + bytes_bits(s.skip(4)));
}

/// A bit string of zeros reads as the numeral zero.
proof fn lemma_bits_value_zero(s: Seq<bool>)
    requires
        forall|i: int| 0 <= i < s.len() ==> !s[i],
    ensures
        bits_value(s) == 0,
    decreases s.len(),
{
    if s.len() > 0 {
        lemma_bits_value_zero(s.drop_last());
    }
}

/// The top `n` bits of a word, read as a numeral, are the word shifted
/// down by `32 - n`.
proof fn lemma_cache_value(c: u32, n: nat)
    requires
        1 <= n <= 32,
    ensures
        (c >> ((32 - n) as u32)) == bits_value(u32_bits_msb(c, n)),
    decreases n,
{
    if n == 1 {
        assert(c >> 31 == (c >> 31) & 1 && ((c >> 31) & 1 == 0 || (c >> 31) & 1 == 1))
            by (bit_vector);
        assert(u32_bits_msb(c, 1).drop_last() =~= Seq::<bool>::empty());
        assert(bits_value(Seq::<bool>::empty()) == 0);
        assert(u32_bits_msb(c, 1).last() == u32_bit(c, 0));
        assert((31 - 0) as u32 == 31u32);
        assert((32 - 1) as u32 == 31u32);
        assert(bits_value(u32_bits_msb(c, 1)) == 2 * bits_value(u32_bits_msb(c, 1).drop_last())
            + (if u32_bits_msb(c, 1).last() {
            1int
        } else {
            0int
        }));
        assert((c >> 31u32) == bits_value(u32_bits_msb(c, 1)));
    } else {
        lemma_cache_value(c, (n - 1) as nat);
        assert(u32_bits_msb(c, n).drop_last() =~= u32_bits_msb(c, (n - 1) as nat));
        let m: u32 = (32 - n) as u32;
        assert(m < 32 ==> c >> m == 2 * (c >> ((m + 1) as u32)) + ((c >> m) & 1) && ((c >> m) & 1
            == 0 || (c >> m) & 1 == 1)) by (bit_vector);
        assert((m + 1) as u32 == (32 - (n - 1)) as u32);
        assert(u32_bits_msb(c, n).last() == u32_bit(c, n - 1));
        assert((31 - (n - 1)) as u32 == m);
    }
}

/// Consuming `n` bits by shifting the cache left drops the first `n`
/// bits of its bit string and keeps the cache left-justified.
proof fn lemma_shl_skip(c: u32, k: nat, n: nat)
    requires
        n < 32,
        n <= k <= 32,
    ensures
        u32_bits_msb(c << (n as u32), (k - n) as nat) == u32_bits_msb(c, k).skip(n as int),
        c << (k as u32) == 0 ==> (c << (n as u32)) << ((k - n) as u32) == 0,
{
    assert forall|i: int| 0 <= i < k - n implies #[trigger] u32_bit(c << (n as u32), i) == u32_bit(
        c,
        i + n,
    ) by {
        let iu = i as u32;
        let nu = n as u32;
        assert(iu + nu < 32 && nu < 32 ==> ((c << nu) >> ((31 - iu) as u32)) & 1 == (c >> ((31 - (
        iu + nu)) as u32)) & 1) by (bit_vector);
        assert((31 - ((i + n) as u32)) as u32 == (31 - (iu + nu)) as u32);
    };
    assert(u32_bits_msb(c << (n as u32), (k - n) as nat) =~= u32_bits_msb(c, k).skip(n as int));
    let nu = n as u32;
    let ku = k as u32;
    assert(nu < 32 && nu <= ku <= 32 && c << ku == 0 ==> (c << nu) << ((ku - nu) as u32) == 0)
        by (bit_vector);
    assert(ku - nu == ((k - n) as u32));
}

/// Joining the cached high bits with freshly loaded low bits places the
/// high part at a place value of 2^need.
proof fn lemma_combine(hi: u32, lo: u32, need: u32)
    by (bit_vector)
    requires
        1 <= need <= 31,
        hi < (1u32 << ((32 - need) as u32)),
        lo < (1u32 << need),
    ensures
        ((hi << need) | lo) == hi * (1u32 << need) + lo,
{
}

proof fn lemma_shr_bound(c: u32, m: u32)
    by (bit_vector)
    requires
        1 <= m <= 31,
    ensures
        (c >> ((32 - m) as u32)) < (1u32 << m),
{
}

/// Bits at and beyond the valid region of a left-justified cache are zero,
/// so reading extra bits only appends zeros at the bottom.
proof fn lemma_msb_pad_zeros(c: u32, a: nat, m: nat)
    requires
        a <= m <= 32,
        c << (a as u32) == 0,
    ensures
        bits_value(u32_bits_msb(c, m)) == bits_value(u32_bits_msb(c, a)) * pow2((m - a) as nat),
{
    let z = u32_bits_msb(c, m).skip(a as int);
    assert forall|i: int| 0 <= i < z.len() implies !z[i] by {
        let j = (i + a) as u32;
        let au = a as u32;
        assert(c << au == 0 && au <= j < 32 ==> (c >> ((31 - j) as u32)) & 1 == 0) by (bit_vector);
        assert((31 - ((i + a) as u32)) as u32 == (31 - j) as u32);
    };
    lemma_bits_value_zero(z);
    assert(u32_bits_msb(c, m) =~= u32_bits_msb(c, a) + z);
    lemma_bits_value_concat(u32_bits_msb(c, a), z);
}

/// A shorter run of leading bits is a prefix of a longer one.
proof fn lemma_msb_prefix(c: u32, m: nat, n: nat)
    requires
        m <= n <= 32,
    ensures
        u32_bits_msb(c, m) == u32_bits_msb(c, n).take(m as int),
{
    assert(u32_bits_msb(c, m) =~= u32_bits_msb(c, n).take(m as int));
}

/// The number of bits a read of `n` actually requests: `n` capped at 32.
pub open spec fn cap32(n: u32) -> nat {
    if n > 32 {
        32nat
    } else {
        n as nat
    }
}

/// How many real stream bits a read of `n` consumes: the request capped at
/// 32, or the whole stream if it is shorter.
pub open spec fn take_len(n: u32, s: Seq<bool>) -> nat {
    if cap32(n) <= s.len() {
        cap32(n)
    } else {
        s.len()
    }
}

/// The bit string of length `n` whose numeral (MSB first) is `v`.
pub open spec fn bits_of_value(v: int, n: nat) -> Seq<bool>
    decreases n,
{
    if n == 0 {
        Seq::empty()
    } else {
        bits_of_value(v / 2, (n - 1) as nat).push(v % 2 == 1)
    }
}

/// Reading a bit string as a numeral loses nothing: synthesizing that
/// numeral back into as many bits reproduces the string exactly.
pub proof fn lemma_bits_round_trip(s: Seq<bool>)
    ensures
        bits_of_value(bits_value(s), s.len()) == s,
    decreases s.len(),
{
    if s.len() == 0 {
        assert(bits_of_value(bits_value(s), 0) =~= s);
    } else {
        lemma_bits_round_trip(s.drop_last());
        lemma_bits_value_bound(s.drop_last());
        let b = if s.last() {
            1int
        } else {
            0int
        };
        let w = bits_value(s.drop_last());
        vstd::arithmetic::div_mod::lemma_fundamental_div_mod_converse(2 * w + b, 2, w, b);
        assert(bits_value(s) / 2 == w);
        assert(bits_value(s) % 2 == b);
        assert(bits_of_value(bits_value(s), s.len()) =~= s);
    }
}

proof fn lemma_shl_zero()
    by (bit_vector)
    ensures
        0u32 << 0u32 == 0,
{
}

/// MSB-first bit cache over a byte slice: the high `cached_bits` bits of
/// `cache` are the bits most recently loaded and not yet consumed.
pub struct BitStreamInfo<'a> {
    pub bytes: &'a [u8],
    pub cache: u32,
    pub cached_bits: i32,
}

impl<'a> BitStreamInfo<'a> {
    /// The cache holds between 0 and 32 valid bits, left-justified: every
    /// bit below the valid region is zero.
    pub open spec fn wf(self) -> bool {
        &&& 0 <= self.cached_bits <= 32
        &&& self.cache << (self.cached_bits as u32) == 0
    }

    /// The bits this reader has yet to deliver.
    pub open spec fn stream_bits(self) -> Seq<bool> {
        u32_bits_msb(self.cache, self.cached_bits as nat) + bytes_bits(self.bytes@)
    }

    pub fn from_slice(bytes: &'a [u8]) -> (r: Self)
        ensures
            r.wf(),
            r.stream_bits() == bytes_bits(bytes@),
            r.bytes@ == bytes@,
            r.cache == 0,
            r.cached_bits == 0,
    {
        proof {
            assert(0u32 << 0u32 == 0) by (bit_vector);
            assert(u32_bits_msb(0u32, 0) + bytes_bits(bytes@) =~= bytes_bits(bytes@));
        }
        BitStreamInfo { bytes, cache: 0, cached_bits: 0 }
    }

    /// Load up to four bytes big-endian, left-justified and zero-padded,
    /// into the cache, replacing whatever the cache held, and drop them
    /// from the byte view.
    pub fn refill_bitstream_cache(&mut self)
        ensures
            final(self).wf(),
            final(self).stream_bits() == bytes_bits(old(self).bytes@),
            old(self).bytes@.len() == 0 ==> final(self).cache == 0 && final(self).cached_bits == 0
                && final(self).bytes@ == old(self).bytes@,
            old(self).bytes@.len() >= 4 ==> final(self).cached_bits == 32 && final(self).bytes@
                == old(self).bytes@.skip(4) && final(self).cache == pack32(
                old(self).bytes@[0],
                old(self).bytes@[1],
                old(self).bytes@[2],
                old(self).bytes@[3],
            ),
            0 < old(self).bytes@.len() < 4 ==> final(self).cached_bits == 8 * old(
                self,
            ).bytes@.len() && final(self).bytes@.len() == 0,
    {
        let len = self.bytes.len();
        if len == 0 {
            self.cache = 0;
            self.cached_bits = 0;
            proof {
                assert(0u32 << 0u32 == 0) by (bit_vector);
                assert(u32_bits_msb(0u32, 0) + bytes_bits(self.bytes@) =~= bytes_bits(
                    self.bytes@,
                ));
            }
        } else if len >= 4 {
            let b0 = self.bytes[0];
            let b1 = self.bytes[1];
            let b2 = self.bytes[2];
            let b3 = self.bytes[3];
            let c = ((b0 as u32) << 24) | ((b1 as u32) << 16) | ((b2 as u32) << 8) | (b3 as u32);
            self.cache = c;
            self.cached_bits = 32;
            self.bytes = slice_subrange(self.bytes, 4, len);
            proof {
                let ghost b = old(self).bytes@;
                lemma_pack_wf(b0, b1, b2, b3, 32);
                lemma_pack_seq(b0, b1, b2, b3);
                lemma_bytes_bits_unfold4(b);
                assert(self.bytes@ =~= b.skip(4));
                assert(u32_bits_msb(c, 32) + bytes_bits(b.skip(4)) =~= bytes_bits(b));
            }
        } else {
            let b0 = self.bytes[0];
            let b1 = if len >= 2 {
                self.bytes[1]
            } else {
                0
            };
            let b2 = if len >= 3 {
                self.bytes[2]
            } else {
                0
            };
            let b3 = 0u8;
            let c = ((b0 as u32) << 24) | ((b1 as u32) << 16) | ((b2 as u32) << 8) | (b3 as u32);
            self.cache = c;
            self.cached_bits = (8 * len) as i32;
            self.bytes = slice_subrange(self.bytes, len, len);
            proof {
                let ghost b = old(self).bytes@;
                lemma_pack_wf(b0, b1, b2, b3, (8 * len) as u32);
                lemma_pack_seq(b0, b1, b2, b3);
                lemma_msb_prefix(c, (8 * len) as nat, 32);
                let cat = u8_bits_msb(b0) + u8_bits_msb(b1) + u8_bits_msb(b2) + u8_bits_msb(b3);
                assert(self.bytes@.len() == 0);
                assert(bytes_bits(self.bytes@) =~= Seq::<bool>::empty());
                if len == 1 {
                    assert(b.skip(1).len() == 0);
                    assert(bytes_bits(b) == u8_bits_msb(b[0]) + bytes_bits(b.skip(1)));
                    assert(cat.take(8) =~= u8_bits_msb(b0));
                    assert(bytes_bits(b) =~= cat.take(8));
                } else if len == 2 {
                    assert(b.skip(1)[0] == b[1]);
                    assert(b.skip(1).skip(1).len() == 0);
                    assert(bytes_bits(b) == u8_bits_msb(b[0]) + bytes_bits(b.skip(1)));
                    assert(bytes_bits(b.skip(1)) == u8_bits_msb(b[1]) + bytes_bits(
                        b.skip(1).skip(1),
                    ));
                    assert(cat.take(16) =~= u8_bits_msb(b0) + u8_bits_msb(b1));
                    assert(bytes_bits(b) =~= cat.take(16));
                } else {
                    assert(b.skip(1)[0] == b[1]);
                    assert(b.skip(1).skip(1)[0] == b[2]);
                    assert(b.skip(1).skip(1).skip(1).len() == 0);
                    assert(bytes_bits(b) == u8_bits_msb(b[0]) + bytes_bits(b.skip(1)));
                    assert(bytes_bits(b.skip(1)) == u8_bits_msb(b[1]) + bytes_bits(
                        b.skip(1).skip(1),
                    ));
                    assert(bytes_bits(b.skip(1).skip(1)) == u8_bits_msb(b[2]) + bytes_bits(
                        b.skip(1).skip(1).skip(1),
                    ));
                    assert(cat.take(24) =~= u8_bits_msb(b0) + u8_bits_msb(b1) + u8_bits_msb(b2));
                    assert(bytes_bits(b) =~= cat.take(24));
                }
                assert(u32_bits_msb(c, (8 * len) as nat) + bytes_bits(self.bytes@) =~= bytes_bits(
                    b,
                ));
            }
        }
    }

    /// Read the next `n_bits` bits (capped at 32) MSB-first and consume
    /// them; past the end of the stream the missing low bits read as zero.
    #[verifier::rlimit(100)]
    #[verifier::spinoff_prover]
    pub fn get_bits(&mut self, n_bits: u32) -> (r: u32)
        requires
            old(self).wf(),
        ensures
            final(self).wf(),
            final(self).stream_bits() == old(self).stream_bits().skip(
                take_len(n_bits, old(self).stream_bits()) as int,
            ),
            r as int == bits_value(
                old(self).stream_bits().take(take_len(n_bits, old(self).stream_bits()) as int),
            ) * pow2((cap32(n_bits) - take_len(n_bits, old(self).stream_bits())) as nat),
            r < pow2(cap32(n_bits)),
            n_bits == 0 ==> r == 0 && *final(self) == *old(self),
    {
        let ghost s0 = old(self).stream_bits();
        let ghost t = take_len(n_bits, s0);
        let n: u32 = if n_bits > 32 {
            32
        } else {
            n_bits
        };
        if n == 0 {
            proof {
                assert(s0.skip(0) =~= s0);
                assert(s0.take(0) =~= Seq::<bool>::empty());
                lemma2_to64();
            }
            return 0;
        }
        proof {
            lemma_bytes_bits_len(self.bytes@);
        }
        let cb: u32 = self.cached_bits as u32;
        if n <= cb {
            let data = self.cache >> (32 - n);
            let ghost c = self.cache;
            if n == 32 {
                self.cache = 0;
            } else {
                self.cache = self.cache << n;
            }
            self.cached_bits = self.cached_bits - (n as i32);
            proof {
                lemma2_to64();
                lemma_cache_value(c, n as nat);
                assert((32 - n as nat) as u32 == 32 - n);
                lemma_msb_prefix(c, n as nat, cb as nat);
                assert(s0.take(n as int) =~= u32_bits_msb(c, cb as nat).take(n as int));
                assert(t == n);
                lemma_bits_value_bound(u32_bits_msb(c, n as nat));
                if n == 32 {
                    lemma_shl_zero();
                    assert(u32_bits_msb(0u32, 0) =~= Seq::<bool>::empty());
                    assert(self.stream_bits() =~= s0.skip(32));
                } else {
                    lemma_shl_skip(c, cb as nat, n as nat);
                    assert(self.stream_bits() =~= s0.skip(n as int));
                }
            }
            data
        } else {
            let hi: u32 = if cb == 0 {
                0
            } else {
                self.cache >> (32 - cb)
            };
            let need: u32 = n - cb;
            let ghost c = self.cache;
            let ghost bpre = self.bytes@;
            self.refill_bitstream_cache();
            let ghost c2 = self.cache;
            let a: u32 = self.cached_bits as u32;
            let ghost b2 = self.bytes@;
            let lo: u32 = self.cache >> (32 - need);
            let data: u32 = if need == 32 {
                lo
            } else {
                (hi << need) | lo
            };
            if need >= a {
                self.cache = 0;
                self.cached_bits = 0;
            } else {
                self.cache = self.cache << need;
                self.cached_bits = (a - need) as i32;
            }
            proof {
                lemma2_to64();
                let ghost v = bytes_bits(bpre);
                lemma_bytes_bits_len(b2);
                assert(v == u32_bits_msb(c2, a as nat) + bytes_bits(b2));
                // the cached high bits as a numeral
                if cb == 0 {
                    assert(u32_bits_msb(c, 0) =~= Seq::<bool>::empty());
                } else {
                    lemma_cache_value(c, cb as nat);
                    assert((32 - cb as nat) as u32 == 32 - cb);
                }
                assert(hi == bits_value(u32_bits_msb(c, cb as nat)));
                lemma_bits_value_bound(u32_bits_msb(c, cb as nat));
                // the freshly loaded bits as a numeral
                lemma_cache_value(c2, need as nat);
                assert((32 - need as nat) as u32 == 32 - need);
                assert(lo == bits_value(u32_bits_msb(c2, need as nat)));
                lemma_bits_value_bound(u32_bits_msb(c2, need as nat));
                // the assembled word
                lemma_pow2_adds(cb as nat, (32 - n as nat) as nat);
                lemma_pow2_adds(need as nat, (32 - n as nat) as nat);
                lemma_pow2_adds(cb as nat, need as nat);
                if need <= 31 {
                    vstd::bits::lemma_u32_shl_is_mul(1u32, need);
                    vstd::bits::lemma_u32_shl_is_mul(1u32, (32 - need) as u32);
                    lemma_shr_bound(c2, need);
                    assert(pow2(cb as nat) <= pow2((32 - need as nat) as nat)) by {
                        if (cb as nat) < (32 - need as nat) as nat {
                            vstd::arithmetic::power2::lemma_pow2_strictly_increases(
                                cb as nat,
                                (32 - need as nat) as nat,
                            );
                        }
                    }
                    lemma_combine(hi, lo, need);
                    assert(data == hi * pow2(need as nat) + lo);
                } else {
                    assert(cb == 0 && hi == 0);
                    assert(data == hi * pow2(need as nat) + lo);
                }
                if need <= a {
                    // the stream had enough bits: all n requested bits are real
                    assert(s0.len() >= cb + a);
                    assert(t == n);
                    assert(s0.take(n as int) =~= u32_bits_msb(c, cb as nat) + u32_bits_msb(
                        c2,
                        need as nat,
                    ));
                    lemma_bits_value_concat(
                        u32_bits_msb(c, cb as nat),
                        u32_bits_msb(c2, need as nat),
                    );
                    lemma_bits_value_bound(s0.take(n as int));
                    if need < a {
                        lemma_shl_skip(c2, a as nat, need as nat);
                        assert(self.stream_bits() =~= s0.skip(n as int));
                    } else {
                        lemma_shl_zero();
                        assert(u32_bits_msb(0u32, 0) =~= Seq::<bool>::empty());
                        assert(self.stream_bits() =~= s0.skip(n as int));
                    }
                } else {
                    // the stream ran out: the low need - a bits are zero padding
                    assert(bpre.len() < 4);
                    assert(b2.len() == 0);
                    assert(bytes_bits(b2) =~= Seq::<bool>::empty());
                    assert(v =~= u32_bits_msb(c2, a as nat));
                    assert(s0.len() == cb + a);
                    assert(t == cb + a);
                    assert(s0.take(t as int) =~= s0);
                    assert(s0 =~= u32_bits_msb(c, cb as nat) + u32_bits_msb(c2, a as nat));
                    lemma_bits_value_concat(
                        u32_bits_msb(c, cb as nat),
                        u32_bits_msb(c2, a as nat),
                    );
                    lemma_bits_value_bound(u32_bits_msb(c2, a as nat));
                    lemma_msb_pad_zeros(c2, a as nat, need as nat);
                    let va = bits_value(u32_bits_msb(c2, a as nat));
                    lemma_pow2_adds(a as nat, (need - a) as nat);
                    assert(hi * pow2(need as nat) == (hi * pow2(a as nat)) * pow2(
                        (need - a) as nat,
                    )) by (nonlinear_arith)
                        requires
                            pow2(need as nat) == pow2(a as nat) * pow2((need - a) as nat),
                    ;
                    assert(data == (hi * pow2(a as nat) + va) * pow2((need - a) as nat))
                        by (nonlinear_arith)
                        requires
                            data == hi * pow2(need as nat) + va * pow2((need - a) as nat),
                            hi * pow2(need as nat) == (hi * pow2(a as nat)) * pow2(
                                (need - a) as nat,
                            ),
                    ;
                    lemma_bits_value_bound(s0);
                    lemma_pow2_pos((need - a) as nat);
                    lemma_pow2_adds(t, (need - a) as nat);
                    assert(bits_value(s0) * pow2((need - a) as nat) < pow2(t) * pow2(
                        (need - a) as nat,
                    )) by (nonlinear_arith)
                        requires
                            bits_value(s0) < pow2(t),
                            pow2((need - a) as nat) >= 1,
                    ;
                    assert(s0.skip(t as int) =~= Seq::<bool>::empty());
                    assert(self.stream_bits() =~= Seq::<bool>::empty());
                    lemma_shl_zero();
                }
            }
            data
        }
    }

    /// How many bits have been consumed since the reader stood at
    /// `start_offset` bits into the slice `start`.
    pub fn calc_bits_used(&self, start: &[u8], start_offset: usize) -> (r: i32)
        requires
            self.wf(),
            start@.len() <= 0x0FFF_FFFF,
            self.bytes@.len() <= 0x0FFF_FFFF,
            start_offset <= 0x7FFF_FFFF,
            -0x8000_0000 <= 8 * (start@.len() - self.bytes@.len()) - self.cached_bits
                - start_offset,
    ensures
            r as int == 8 * (start@.len() - self.bytes@.len()) - self.cached_bits - start_offset,
    {
        let mut bits_used: i32 = (start.len() as i32 - self.bytes.len() as i32) * 8;
        bits_used -= self.cached_bits;
        bits_used -= start_offset as i32;
        bits_used
    }
}

/// Free-function form of [`BitStreamInfo::get_bits`].
pub fn get_bits(bsi: &mut BitStreamInfo<'_>, n_bits: u32) -> (r: u32)
    requires
        old(bsi).wf(),
    ensures
        final(bsi).wf(),
        final(bsi).stream_bits() == old(bsi).stream_bits().skip(
            take_len(n_bits, old(bsi).stream_bits()) as int,
        ),
        r as int == bits_value(
            old(bsi).stream_bits().take(take_len(n_bits, old(bsi).stream_bits()) as int),
        ) * pow2((cap32(n_bits) - take_len(n_bits, old(bsi).stream_bits())) as nat),
        r < pow2(cap32(n_bits)),
        n_bits == 0 ==> r == 0 && *final(bsi) == *old(bsi),
{
    bsi.get_bits(n_bits)
}

/// Free-function form of [`BitStreamInfo::refill_bitstream_cache`].
pub fn refill_bitstream_cache(bsi: &mut BitStreamInfo<'_>)
    ensures
        final(bsi).wf(),
        final(bsi).stream_bits() == bytes_bits(old(bsi).bytes@),
        old(bsi).bytes@.len() == 0 ==> final(bsi).cache == 0 && final(bsi).cached_bits == 0
            && final(bsi).bytes@ == old(bsi).bytes@,
        old(bsi).bytes@.len() >= 4 ==> final(bsi).cached_bits == 32 && final(bsi).bytes@ == old(
            bsi,
        ).bytes@.skip(4) && final(bsi).cache == pack32(
            old(bsi).bytes@[0],
            old(bsi).bytes@[1],
            old(bsi).bytes@[2],
            old(bsi).bytes@[3],
        ),
        0 < old(bsi).bytes@.len() < 4 ==> final(bsi).cached_bits == 8 * old(bsi).bytes@.len()
            && final(bsi).bytes@.len() == 0,
{
    bsi.refill_bitstream_cache()
}

/// Law: a read reproduces the stream. The numeral a read of `n` bits
/// returns, stripped of its zero padding, synthesizes back into exactly
/// the bits the read consumed.
pub proof fn lemma_get_bits_round_trip(s: Seq<bool>, n: u32)
    ensures
        bits_of_value(
            (bits_value(s.take(take_len(n, s) as int)) * pow2((cap32(n) - take_len(n, s)) as nat))
                / pow2((cap32(n) - take_len(n, s)) as nat) as int,
            take_len(n, s),
        ) == s.take(take_len(n, s) as int),
{
    let t = take_len(n, s);
    let pad = (cap32(n) - t) as nat;
    lemma_pow2_pos(pad);
    vstd::arithmetic::div_mod::lemma_div_multiples_vanish(
        bits_value(s.take(t as int)),
        pow2(pad) as int,
    );
    lemma_bits_round_trip(s.take(t as int));
    assert(s.take(t as int).len() == t);
}

} // verus!

use mp3dec::bits::{get_bits, BitStreamInfo};
use mp3dec::imdct::{idct_9, imdct_12};
use mp3dec::polyphase::{polyphase_mono, polyphase_stereo, POLY_COEF};
use mp3dec::qmath::{madd_64, mulshift_32, sar_64};

#[test]
fn sar_64_is_logical_shift() {
    assert_eq!(sar_64(0xFFFF0000FFFF0000, 17), 140735340904447);
    assert_eq!(sar_64(1, 0), 1);
    assert_eq!(sar_64(u64::MAX, 63), 1);
    assert_eq!(sar_64(0x8000_0000_0000_0000, 63), 1);
}

#[test]
fn mulshift_32_keeps_high_word() {
    assert_eq!(mulshift_32(0x6ed9eba1, 1000000), 433012);
    assert_eq!(mulshift_32(-5, 7), -1); // floor(-35 / 2^32) = -1
    assert_eq!(mulshift_32(0, 12345), 0);
    assert_eq!(mulshift_32(i32::MAX, i32::MIN), -1073741824);
    assert_eq!(mulshift_32(i32::MIN, i32::MIN), 1073741824);
}

#[test]
fn madd_64_wraps_modulo_2_64() {
    assert_eq!(madd_64(10, -1, 1), 9);
    assert_eq!(madd_64(u64::MAX, 2, 3), 5);
    assert_eq!(madd_64(0, 100000, 100000), 10_000_000_000);
    assert_eq!(madd_64(1 << 25, 0, 12345), 1 << 25);
}

#[test]
fn bit_reads_resynthesize_the_stream() {
    // Splitting a stream into uneven reads and re-assembling the returned
    // numerals reproduces the source bytes exactly.
    let data = [0xA5, 0x3C, 0x77];
    let mut bsi = BitStreamInfo { bytes: &data, cache: 0, cached_bits: 0 };
    let r1 = get_bits(&mut bsi, 5);
    let r2 = get_bits(&mut bsi, 11);
    let r3 = get_bits(&mut bsi, 8);
    assert!(r1 < 1 << 5 && r2 < 1 << 11 && r3 < 1 << 8);
    assert_eq!((r1 << 19) | (r2 << 8) | r3, 0xA53C77);
}

#[test]
fn get_bits_zero_reads_nothing() {
    let data = [0xA5, 0x3C];
    let mut bsi = BitStreamInfo { bytes: &data, cache: 0, cached_bits: 0 };
    assert_eq!(get_bits(&mut bsi, 3), 0b101);
    let cache_before = bsi.cache;
    let cached_bits_before = bsi.cached_bits;
    let len_before = bsi.bytes.len();
    assert_eq!(get_bits(&mut bsi, 0), 0);
    assert_eq!(bsi.cache, cache_before);
    assert_eq!(bsi.cached_bits, cached_bits_before);
    assert_eq!(bsi.bytes.len(), len_before);
    assert_eq!(get_bits(&mut bsi, 5), 0b00101);
}

#[test]
fn calc_bits_used_counts_consumed_bits() {
    let data = [0xDE, 0xAD, 0xBE, 0xEF, 0x01];
    let mut bsi = BitStreamInfo { bytes: &data, cache: 0, cached_bits: 0 };
    assert_eq!(bsi.calc_bits_used(&data, 0), 0);
    bsi.get_bits(13);
    // 5 bytes advanced past minus 19 still cached.
    assert_eq!(bsi.calc_bits_used(&data, 0), 13);
    assert_eq!(bsi.calc_bits_used(&data, 4), 9);
}

#[test]
fn imdct_12_known_values() {
    let mut x = [0i32; 18];
    let vals = [1000000, -2000000, 3000000, -400000, 50000, 12345];
    let mut i = 0;
    while i < 6 {
        x[3 * i] = vals[i];
        i += 1;
    }
    let mut out = [0i32; 6];
    imdct_12(&x, &mut out);
    assert_eq!(out, [656098, -363092, -825418, 1346534, 6725436, 11773402]);
}

#[test]
fn imdct_12_zero_input() {
    let x = [0i32; 18];
    let mut out = [7i32; 6];
    imdct_12(&x, &mut out);
    assert_eq!(out, [0i32; 6]);
}

#[test]
fn idct_9_known_values() {
    let mut x = [1000000, -500000, 250000, -125000, 62500, -31250, 15625, -7812, 3906];
    idct_9(&mut x);
    assert_eq!(x, [667872, 676986, 698516, 734974, 800781, 911994, 1118808, 1475358, 1914708]);
}

#[test]
fn idct_9_zero_input() {
    let mut x = [0i32; 9];
    idct_9(&mut x);
    assert_eq!(x, [0i32; 9]);
}

#[test]
fn polyphase_mono_known_values() {
    let mut vbuf = vec![0i32; 1088];
    vbuf[0] = 123456789;
    vbuf[5] = -987654321;
    vbuf[64] = 55555555;
    vbuf[1024] = -44444444;
    let mut pcm = vec![0i16; 32];
    polyphase_mono(&mut pcm, &vbuf, &POLY_COEF);
    let mut expected = vec![0i16; 32];
    expected[0] = -32768;
    expected[1] = -3;
    expected[16] = -276;
    expected[31] = 86;
    assert_eq!(pcm, expected);
}

#[test]
fn polyphase_stereo_known_values() {
    let mut vbuf = vec![0i32; 1088];
    vbuf[0] = 123456789;
    vbuf[32] = -123456789;
    vbuf[23] = 777777777;
    vbuf[1024 + 32 + 3] = 99999999;
    let mut pcm = vec![0i16; 64];
    polyphase_stereo(&mut pcm, &vbuf, &POLY_COEF);
    let mut expected = vec![0i16; 64];
    expected[0] = -1344;
    expected[33] = 32767;
    assert_eq!(pcm, expected);
}

#[test]
fn polyphase_quiet_history_gives_silence() {
    // An all-zero history yields only the rounding bias, which shifts and
    // clips to zero in every output sample.
    let vbuf = vec![0i32; 1088];
    let mut pcm = vec![99i16; 64];
    polyphase_stereo(&mut pcm, &vbuf, &POLY_COEF);
    assert_eq!(pcm, vec![0i16; 64]);
    let mut pcm2 = vec![99i16; 32];
    polyphase_mono(&mut pcm2, &vbuf, &POLY_COEF);
    assert_eq!(pcm2, vec![0i16; 32]);
}

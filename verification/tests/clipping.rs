use mp3dec::qmath::{clip_2n, clip_to_short, ClipToShort, CLIP_2N, MADD64, MULSHIFT32};

#[test]
fn mp3_decoder_test_no_shift_no_clipping() {
    // frac_bits = 0 -> no shift, just clipping
    assert_eq!(clip_to_short(0, 0), 0);
    assert_eq!(clip_to_short(100, 0), 100);
    assert_eq!(clip_to_short(-5000, 0), -5000);
    assert_eq!(clip_to_short(32767, 0), 32767);
    assert_eq!(clip_to_short(-32768, 0), -32768);
}

#[test]
fn mp3_decoder_test_positive_clipping() {
    // Values that exceed i16::MAX after shift should be clamped to 32767
    assert_eq!(clip_to_short(32767 << 1, 1), 32767); // 65534 >> 1 = 32767 -> no clip
    assert_eq!(clip_to_short(32768 << 1, 1), 32767); // 65536 >> 1 = 32768 -> clipped
    assert_eq!(clip_to_short(1_000_000, 0), 32767);
    assert_eq!(clip_to_short(2_147_483_647, 0), 32767); // i32::MAX
    assert_eq!(clip_to_short(40000, 1), 20000); // 40000 >> 1 = 20000 -> no clip?
    assert_eq!(clip_to_short(100_000, 1), 32767); // 100000 >> 1 = 50000 -> still > 32767 -> clipped
}

#[test]
fn mp3_decoder_test_negative_clipping() {
    // Values that go below i16::MIN after shift should be clamped to -32768
    assert_eq!(clip_to_short(-32768 << 1, 1), -32768); // -65536 >> 1 = -32768 -> no clip
    assert_eq!(clip_to_short((-32768 << 1) - 2, 1), -32768); // -65538 >> 1 = -32769 -> clipped
    assert_eq!(clip_to_short(-100_000, 0), -32768);
    assert_eq!(clip_to_short(-2_147_483_648, 0), -32768); // i32::MIN
}

#[test]
fn mp3_decoder_test_exact_edges() {
    assert_eq!(clip_to_short(32767, 0), 32767);
    assert_eq!(clip_to_short(32768, 0), 32767);
    assert_eq!(clip_to_short(-32768, 0), -32768);
    assert_eq!(clip_to_short(-32769, 0), -32768);

    // After shifting
    assert_eq!(clip_to_short(32767 << 5, 5), 32767);
    assert_eq!(clip_to_short((32767 << 5) + 1, 5), 32767);
    assert_eq!(clip_to_short(-32768 << 5, 5), -32768);
    assert_eq!(clip_to_short((-32768 << 5) - 1, 5), -32768);
}

#[test]
fn mp3_decoder_test_large_frac_bits() {
    // Shifting by many bits -> most values become 0 or -1 (for negative)
    assert_eq!(clip_to_short(12345, 20), 0);
    assert_eq!(clip_to_short(-12345, 20), -1); // arithmetic right shift in Rust for signed
    assert_eq!(clip_to_short(1 << 30, 30), 1);
    assert_eq!(clip_to_short(-1 << 30, 30), -1);
    assert_eq!(clip_to_short(1_000_000, 31), 0);
    assert_eq!(clip_to_short(-1_000_000, 31), -1);
}

#[test]
fn mp3_decoder_test_frac_bits_zero() {
    // No shift, pure clipping
    for i in -40000..=40000 {
        let expected = i.clamp(i16::MIN as i32, i16::MAX as i32) as i16;
        assert_eq!(clip_to_short(i, 0), expected);
    }
}

#[test]
fn mp3_decoder_test_small_shifts() {
    assert_eq!(clip_to_short(1, 1), 0);
    assert_eq!(clip_to_short(3, 1), 1);
    assert_eq!(clip_to_short(4, 1), 2);
    assert_eq!(clip_to_short(-3, 1), -2);
    // But let's verify actual behavior:
    assert_eq!(clip_to_short(-5, 1), -3);
    // Better to test known values
    assert_eq!(clip_to_short(-1, 0), -1);
    assert_eq!(clip_to_short(-1 << 10, 10), -1);
}

#[test]
fn clip_to_short_test_no_shift_no_clipping() {
    assert_eq!(clip_to_short(0, 0), 0);
    assert_eq!(clip_to_short(100, 0), 100);
    assert_eq!(clip_to_short(-5000, 0), -5000);
    assert_eq!(clip_to_short(32767, 0), 32767);
    assert_eq!(clip_to_short(-32768, 0), -32768);
}

#[test]
fn clip_to_short_test_positive_clipping() {
    assert_eq!(clip_to_short(32767 << 1, 1), 32767);
    assert_eq!(clip_to_short(32768 << 1, 1), 32767);
    assert_eq!(clip_to_short(1_000_000, 0), 32767);
    assert_eq!(clip_to_short(2_147_483_647, 0), 32767);
    assert_eq!(clip_to_short(40000, 1), 20000);
    assert_eq!(clip_to_short(100_000, 1), 32767);
}

#[test]
fn clip_to_short_test_negative_clipping() {
    assert_eq!(clip_to_short(-32768 << 1, 1), -32768);
    assert_eq!(clip_to_short((-32768 << 1) - 2, 1), -32768);
    assert_eq!(clip_to_short(-100_000, 0), -32768);
    assert_eq!(clip_to_short(-2_147_483_648, 0), -32768);
}

#[test]
fn clip_to_short_test_exact_edges() {
    assert_eq!(clip_to_short(32767, 0), 32767);
    assert_eq!(clip_to_short(32768, 0), 32767);
    assert_eq!(clip_to_short(-32768, 0), -32768);
    assert_eq!(clip_to_short(-32769, 0), -32768);

    assert_eq!(clip_to_short(32767 << 5, 5), 32767);
    assert_eq!(clip_to_short((32767 << 5) + 1, 5), 32767);
    assert_eq!(clip_to_short(-32768 << 5, 5), -32768);
    assert_eq!(clip_to_short((-32768 << 5) - 1, 5), -32768);
}

#[test]
fn clip_to_short_test_large_frac_bits() {
    assert_eq!(clip_to_short(12345, 20), 0);
    assert_eq!(clip_to_short(-12345, 20), -1);
    assert_eq!(clip_to_short(1 << 30, 30), 1);
    assert_eq!(clip_to_short(-1 << 30, 30), -1);
    assert_eq!(clip_to_short(1_000_000, 31), 0);
    assert_eq!(clip_to_short(-1_000_000, 31), -1);
}

#[test]
fn clip_to_short_test_frac_bits_zero() {
    for i in -40000..=40000 {
        let expected = i.clamp(i16::MIN as i32, i16::MAX as i32) as i16;
        assert_eq!(clip_to_short(i, 0), expected);
    }
}

#[test]
fn clip_to_short_test_small_shifts() {
    assert_eq!(clip_to_short(1, 1), 0);
    assert_eq!(clip_to_short(3, 1), 1);
    assert_eq!(clip_to_short(4, 1), 2);
    assert_eq!(clip_to_short(-3, 1), -2);
    assert_eq!(clip_to_short(-5, 1), -3);
    assert_eq!(clip_to_short(-1, 0), -1);
    assert_eq!(clip_to_short(-1 << 10, 10), -1);
}

#[test]
fn clip_2n_clamps_to_symmetric_range() {
    // n in 0..=30: clamps to [-(1 << n), (1 << n) - 1]
    assert_eq!(clip_2n(5, 0), 0);
    assert_eq!(clip_2n(-5, 0), -1);
    assert_eq!(clip_2n(0, 0), 0);
    assert_eq!(clip_2n(1000, 8), 255);
    assert_eq!(clip_2n(-1000, 8), -256);
    assert_eq!(clip_2n(255, 8), 255);
    assert_eq!(clip_2n(256, 8), 255);
    assert_eq!(clip_2n(-256, 8), -256);
    assert_eq!(clip_2n(-257, 8), -256);
    assert_eq!(clip_2n(i32::MAX, 30), (1 << 30) - 1);
    assert_eq!(clip_2n(i32::MIN, 30), -(1 << 30));
    assert_eq!(clip_2n(12345, 30), 12345);
}

#[test]
fn clip_2n_identity_above_30() {
    // n >= 31: every i32 is already inside [-(1 << n), (1 << n) - 1]
    assert_eq!(clip_2n(i32::MAX, 31), i32::MAX);
    assert_eq!(clip_2n(i32::MIN, 31), i32::MIN);
    assert_eq!(clip_2n(-77, 31), -77);
    assert_eq!(clip_2n(i32::MAX, 55), i32::MAX);
    assert_eq!(clip_2n(i32::MIN, u32::MAX), i32::MIN);
}

#[test]
fn alias_wrappers_match_base_functions() {
    assert_eq!(CLIP_2N(1000, 8), clip_2n(1000, 8));
    assert_eq!(ClipToShort(100_000, 1), clip_to_short(100_000, 1));
    assert_eq!(MULSHIFT32(0x6ed9eba1, 1000000), 433012);
    assert_eq!(MADD64(10, -1, 1), 9);
}

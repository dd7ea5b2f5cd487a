use mp3dec::bits::BitStreamInfo;

fn make_cache_bsi(data: &[u8]) -> BitStreamInfo<'_> {
    BitStreamInfo { bytes: data, cache: 0, cached_bits: 0 }
}

fn make_cache_refill_bsi(bytes: &[u8]) -> BitStreamInfo<'_> {
    BitStreamInfo {
        bytes,
        cache: 0xDEADBEEF, // garbage initial value to detect overwrite
        cached_bits: -99,  // invalid initial value
    }
}

#[test]
fn bit_stream_cache_test_get_single_bits() {
    let data = [0b1011_0011];
    let mut bsi = make_cache_bsi(&data);

    assert_eq!(bsi.get_bits(1), 1);
    assert_eq!(bsi.get_bits(1), 0);
    assert_eq!(bsi.get_bits(1), 1);
    assert_eq!(bsi.get_bits(1), 1);
    assert_eq!(bsi.get_bits(1), 0);
    assert_eq!(bsi.get_bits(1), 0);
    assert_eq!(bsi.get_bits(1), 1);
    assert_eq!(bsi.get_bits(1), 1);

    assert_eq!(bsi.cached_bits, 0);
    assert_eq!(bsi.bytes.len(), 0); // consumed 1 byte
}

#[test]
fn bit_stream_cache_test_get_various_sizes_from_cache() {
    let data = [0xAB, 0xCD, 0xEF]; // 0xABCDEF
    let mut bsi = make_cache_bsi(&data);

    // First read 12 bits: should get 0xABC (0b1010_1011_1100)
    assert_eq!(bsi.get_bits(12), 0xABC);

    assert_eq!(bsi.get_bits(8), 0xDE); // next 8 bits
    assert_eq!(bsi.get_bits(4), 0xF); // next 4 bits (0xE from 0xEF)
    assert_eq!(bsi.get_bits(4), 0x0); // last 4 bits

    assert_eq!(bsi.cached_bits, 0);
}

#[test]
fn bit_stream_cache_test_split_across_refill() {
    let data = [0xF0, 0x0F, 0xAA];
    let mut bsi = make_cache_bsi(&data);

    // Read 4 bits: 0b1111
    assert_eq!(bsi.get_bits(4), 0xF);

    // Read 12 bits: should take remaining 4 (0x0) + next 8 (0x0F) = 0x00F
    assert_eq!(bsi.get_bits(12), 0x00F);

    assert_eq!(bsi.get_bits(8), 0xAA);

    assert_eq!(bsi.bytes.len(), 0);
}

#[test]
fn bit_stream_cache_test_full_32_bits() {
    let data = [0x12, 0x34, 0x56, 0x78];
    let mut bsi = make_cache_bsi(&data);

    assert_eq!(bsi.get_bits(32), 0x12345678);
    assert_eq!(bsi.cached_bits, 0);
    assert_eq!(bsi.bytes.len(), 0);
}

#[test]
fn bit_stream_cache_test_more_than_32_bits_capped() {
    let data = [0xFF, 0xFF, 0xFF, 0xFF, 0xFF];
    let mut bsi = make_cache_bsi(&data);

    // Should cap at 32 and return top 32 bits
    assert_eq!(bsi.get_bits(40), 0xFFFFFFFF);
    // After reading 32 bits, one byte remains in buffer, cache should be refilled
    bsi.refill_bitstream_cache(); // simulate next refill
    assert_eq!(bsi.cache, 0xFF000000);
    assert_eq!(bsi.cached_bits, 8);
}

#[test]
fn bit_stream_cache_test_small_reads_after_large() {
    let data = [0xDE, 0xAD, 0xBE, 0xEF];
    let mut bsi = make_cache_bsi(&data);

    assert_eq!(bsi.get_bits(16), 0xDEAD);
    assert_eq!(bsi.get_bits(3), 0b101); // first 3 bits of 0xBE = 0b10111110
    assert_eq!(bsi.get_bits(5), 0b11110); // next 5 bits
    assert_eq!(bsi.get_bits(8), 0xEF);
}

#[test]
fn bit_stream_cache_test_empty_stream_returns_zero() {
    let mut bsi = make_cache_bsi(&[]);

    assert_eq!(bsi.get_bits(1), 0);
    assert_eq!(bsi.get_bits(16), 0);
    assert_eq!(bsi.get_bits(32), 0);
    assert_eq!(bsi.cached_bits, 0);
}

#[test]
fn bit_stream_cache_test_partial_final_byte() {
    let data = [0b1010_1010];
    let mut bsi = make_cache_bsi(&data);

    assert_eq!(bsi.get_bits(3), 0b101);
    assert_eq!(bsi.get_bits(3), 0b010);
    assert_eq!(bsi.get_bits(2), 0b10);
    // Only 8 bits total, no more
    assert_eq!(bsi.get_bits(1), 0);
}

#[test]
fn bit_stream_cache_refill_empty() {
    let data = [];
    let mut bsi = make_cache_refill_bsi(&data);

    bsi.refill_bitstream_cache();

    assert_eq!(bsi.cache, 0);
    assert_eq!(bsi.cached_bits, 0);
    assert_eq!(bsi.bytes.len(), 0);
}

#[test]
fn bit_stream_cache_refill_full_4_bytes() {
    let data = [0x12, 0x34, 0x56, 0x78];
    let mut bsi = make_cache_refill_bsi(&data);

    bsi.refill_bitstream_cache();

    assert_eq!(bsi.cache, 0x12345678);
    assert_eq!(bsi.cached_bits, 32);
    assert_eq!(bsi.bytes, &[][..]); // consumed 4 bytes
}

#[test]
fn bit_stream_cache_refill_full_more_than_4_bytes() {
    let data = [0xAB, 0xCD, 0xEF, 0x12, 0x34, 0x56];
    let mut bsi = make_cache_refill_bsi(&data);

    bsi.refill_bitstream_cache();

    assert_eq!(bsi.cache, 0xABCDEF12);
    assert_eq!(bsi.cached_bits, 32);
    assert_eq!(bsi.bytes, &[0x34, 0x56][..]); // left 2 bytes
}

#[test]
fn bit_stream_cache_refill_3_bytes() {
    let data = [0xAB, 0xCD, 0xEF];
    let mut bsi = make_cache_refill_bsi(&data);

    bsi.refill_bitstream_cache();

    assert_eq!(bsi.cache, 0xABCDEF00); // left-justified!
    assert_eq!(bsi.cached_bits, 24);
    assert_eq!(bsi.bytes.len(), 0);
}

#[test]
fn bit_stream_cache_refill_2_bytes() {
    let data = [0x12, 0x34];
    let mut bsi = make_cache_refill_bsi(&data);

    bsi.refill_bitstream_cache();

    assert_eq!(bsi.cache, 0x12340000);
    assert_eq!(bsi.cached_bits, 16);
    assert_eq!(bsi.bytes.len(), 0);
}

#[test]
fn bit_stream_cache_refill_1_byte() {
    let data = [0xFF];
    let mut bsi = make_cache_refill_bsi(&data);

    bsi.refill_bitstream_cache();

    assert_eq!(bsi.cache, 0xFF000000);
    assert_eq!(bsi.cached_bits, 8);
    assert_eq!(bsi.bytes.len(), 0);
}

#[test]
fn bit_stream_cache_refill_multiple_calls() {
    let data = [0xAA, 0xBB, 0xCC, 0xDD, 0xEE];
    let mut bsi = make_cache_refill_bsi(&data);

    bsi.refill_bitstream_cache();
    assert_eq!(bsi.cache, 0xAABBCCDD);
    assert_eq!(bsi.cached_bits, 32);
    assert_eq!(bsi.bytes, &[0xEE][..]);

    bsi.refill_bitstream_cache();
    assert_eq!(bsi.cache, 0xEE000000);
    assert_eq!(bsi.cached_bits, 8);
    assert_eq!(bsi.bytes.len(), 0);

    bsi.refill_bitstream_cache();
    assert_eq!(bsi.cache, 0);
    assert_eq!(bsi.cached_bits, 0);
}

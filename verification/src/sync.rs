//! Byte-aligned frame-sync search over a raw MP3 elementary stream.

use vstd::prelude::*;

verus! {

use vstd::slice::slice_subrange;

/// High byte of the frame sync pattern.
pub const SYNCWORDH: u8 = 0xFF;

/// Mask of the sync bits carried by the second header byte.
pub const SYNCWORDL: u8 = 0xF0;

/// A byte-aligned sync pattern at offset `i`: a 0xFF byte followed by a
/// byte whose top nibble is set.
pub open spec fn sync_at(s: Seq<u8>, i: int) -> bool {
    &&& 0 <= i
    &&& i + 1 < s.len()
    &&& s[i] == 0xFFu8
    &&& s[i + 1] & 0xF0u8 == 0xF0u8
}

/// The next frame header at offset `i` matches the current one: sync
/// pattern, same first two bytes, and the same bitrate/sample-rate nibble
/// and padding bit in the third byte.
pub open spec fn free_match(b: Seq<u8>, h: Seq<u8>, i: int) -> bool {
    &&& 0 <= i
    &&& i + 3 < b.len()
    &&& b[i] == 0xFFu8
    &&& b[i + 1] & 0xF0u8 == 0xF0u8
    &&& b[i] == h[0]
    &&& b[i + 1] == h[1]
    &&& b[i + 2] & 0xFCu8 == h[2] & 0xFCu8
}

/// A matching header at `i` and none before it.
pub open spec fn first_free_match(b: Seq<u8>, h: Seq<u8>, i: int) -> bool {
    &&& free_match(b, h, i)
    &&& forall|j: int| 0 <= j < i ==> !free_match(b, h, j)
}

/// The padding bit of a 4-byte frame header.
pub open spec fn has_padding(h: Seq<u8>) -> bool {
    (h[2] >> 1u8) & 1u8 == 1u8
}

/// Locate the first byte-aligned sync word and return the stream from
/// there on, or `None` when no sync pattern occurs.
pub fn mp3_find_sync_word<'a>(data: &'a [u8]) -> (r: Option<&'a [u8]>)
    ensures
        r is None ==> forall|j: int| !sync_at(data@, j),
        r is Some ==> r.unwrap()@ == data@.skip(data@.len() - r.unwrap()@.len()),
        r is Some ==> sync_at(data@, data@.len() - r.unwrap()@.len()),
        r is Some ==> forall|j: int|
            0 <= j < data@.len() - r.unwrap()@.len() ==> !sync_at(data@, j),
{
    let n = data.len();
    if n < 2 {
        return None;
    }
    let mut i: usize = 0;
    while i + 1 < n
        invariant
            n == data@.len(),
            i + 1 <= n,
            forall|j: int| 0 <= j < i ==> !sync_at(data@, j),
        decreases n - i,
    {
        if data[i] == SYNCWORDH && (data[i + 1] & SYNCWORDL) == SYNCWORDL {
            let tail = slice_subrange(data, i, n);
            proof {
                assert(tail@ =~= data@.skip(i as int));
            }
            return Some(tail);
        }
        i += 1;
    }
    None
}

/// Find the distance to the next frame header matching `first_header`
/// (free-bitrate detection), backing up one byte when the current header
/// carries a padding slot; `None` when no matching header occurs.
pub fn mp3_find_free_sync(buf: &[u8], first_header: [u8; 4]) -> (r: Option<usize>)
    ensures
        r is None ==> forall|i: int| !free_match(buf@, first_header@, i),
        r is Some ==> exists|i: int|
            #[trigger] first_free_match(buf@, first_header@, i) && r.unwrap() as int == (if has_padding(
                first_header@,
            ) {
                if i == 0 {
                    0int
                } else {
                    i - 1
                }
            } else {
                i
            }),
{
    let n = buf.len();
    if n < 4 {
        return None;
    }
    let fh0 = first_header[0];
    let fh1 = first_header[1];
    let fh2_masked = first_header[2] & 0xFC;
    let h2 = first_header[2];
    let padding = (h2 >> 1) & 0x01 != 0;
    proof {
        assert((h2 >> 1u8) & 1u8 == 0 || (h2 >> 1u8) & 1u8 == 1) by (bit_vector);
    }
    let mut i: usize = 0;
    while i + 3 < n
        invariant
            n == buf@.len(),
            i + 3 <= n,
            fh0 == first_header@[0],
            fh1 == first_header@[1],
            fh2_masked == first_header@[2] & 0xFCu8,
            padding == has_padding(first_header@),
            forall|j: int| 0 <= j < i ==> !free_match(buf@, first_header@, j),
        decreases n - i,
    {
        if buf[i] == SYNCWORDH && (buf[i + 1] & SYNCWORDL) == SYNCWORDL && buf[i] == fh0 && buf[i
            + 1] == fh1 && (buf[i + 2] & 0xFC) == fh2_masked {
            proof {
                assert(first_free_match(buf@, first_header@, i as int));
            }
            if padding {
                if i == 0 {
                    return Some(0);
                } else {
                    return Some(i - 1);
                }
            } else {
                return Some(i);
            }
        }
        i += 1;
    }
    None
}

} // verus!

//! Frame-header parsing: validates the sync pattern and index fields of a
//! Layer III frame header and derives the stream parameters from them.

use vstd::prelude::*;

verus! {

/// MPEG version, mapped from the 2-bit version field of the header.
#[derive(Clone, Copy, Debug, PartialEq, Eq, Structural)]
pub enum MPEGVersion {
    MPEG1,
    MPEG2,
    MPEG25,
}

/// Decode errors, one per pipeline stage that can reject its input.
#[derive(Clone, Copy, Debug, PartialEq, Eq, Structural)]
pub enum MP3Error {
    IndataUnderflow,
    MaindataUnderflow,
    FreeBitrateSync,
    InvalidFrameHeader,
    InvalidSideInfo,
    InvalidScalefact,
    InvalidHuffcodes,
    InvalidDequantize,
    InvalidImdct,
    InvalidSubband,
}

/// Per-frame stream parameters derived from a parsed frame header.
#[allow(non_snake_case)]
#[derive(Clone, Copy, Debug, PartialEq, Eq, Structural)]
pub struct MP3FrameInfo {
    pub bitrate: i32,
    pub nChans: i32,
    pub samprate: i32,
    pub bitsPerSample: i32,
    pub outputSamps: i32,
    pub layer: i32,
    pub version: MPEGVersion,
}

/// The 11-bit sync pattern: a 0xFF byte and three more set bits, so that
/// MPEG2.5 headers (whose twelfth bit is clear) pass the check too.
pub open spec fn hdr_sync_ok(b: Seq<u8>) -> bool {
    b[0] == 0xFFu8 && b[1] & 0xE0u8 == 0xE0u8
}

pub open spec fn hdr_ver_idx(b: Seq<u8>) -> u8 {
    (b[1] >> 3u8) & 3u8
}

pub open spec fn hdr_layer_idx(b: Seq<u8>) -> u8 {
    (b[1] >> 1u8) & 3u8
}

pub open spec fn hdr_crc_present(b: Seq<u8>) -> bool {
    b[1] & 1u8 == 0u8
}

pub open spec fn hdr_br_idx(b: Seq<u8>) -> u8 {
    (b[2] >> 4u8) & 0xFu8
}

pub open spec fn hdr_sr_idx(b: Seq<u8>) -> u8 {
    (b[2] >> 2u8) & 3u8
}

pub open spec fn hdr_mode(b: Seq<u8>) -> u8 {
    (b[3] >> 6u8) & 3u8
}

/// The version named by the header's version field (index 1 is reserved).
pub open spec fn version_of(idx: u8) -> MPEGVersion {
    if idx == 3 {
        MPEGVersion::MPEG1
    } else if idx == 2 {
        MPEGVersion::MPEG2
    } else {
        MPEGVersion::MPEG25
    }
}

/// A header this Layer III decoder accepts: sync pattern present, a known
/// version, the Layer III layer field, a non-reserved bitrate index and
/// sample-rate index, and enough bytes to cover the CRC word when the
/// protection bit announces one.
pub open spec fn frame_header_valid(b: Seq<u8>) -> bool {
    &&& b.len() >= 4
    &&& hdr_sync_ok(b)
    &&& hdr_ver_idx(b) != 1
    &&& hdr_layer_idx(b) == 1
    &&& hdr_br_idx(b) != 15
    &&& hdr_sr_idx(b) != 3
    &&& (hdr_crc_present(b) ==> b.len() >= 6)
}

/// Layer III bitrate in bits per second for a version and bitrate index;
/// index 0 is the free-format marker and reads as 0.
pub open spec fn bitrate_of(v: MPEGVersion, idx: u8) -> int {
    if v == MPEGVersion::MPEG1 {
        if idx == 0 {
            0
        } else if idx == 1 {
            32000
        } else if idx == 2 {
            40000
        } else if idx == 3 {
            48000
        } else if idx == 4 {
            56000
        } else if idx == 5 {
            64000
        } else if idx == 6 {
            80000
        } else if idx == 7 {
            96000
        } else if idx == 8 {
            112000
        } else if idx == 9 {
            128000
        } else if idx == 10 {
            160000
        } else if idx == 11 {
            192000
        } else if idx == 12 {
            224000
        } else if idx == 13 {
            256000
        } else {
            320000
        }
    } else {
        if idx == 0 {
            0
        } else if idx == 1 {
            8000
        } else if idx == 2 {
            16000
        } else if idx == 3 {
            24000
        } else if idx == 4 {
            32000
        } else if idx == 5 {
            40000
        } else if idx == 6 {
            48000
        } else if idx == 7 {
            56000
        } else if idx == 8 {
            64000
        } else if idx == 9 {
            80000
        } else if idx == 10 {
            96000
        } else if idx == 11 {
            112000
        } else if idx == 12 {
            128000
        } else if idx == 13 {
            144000
        } else {
            160000
        }
    }
}

/// Sample rate in Hz for a version and sample-rate index.
pub open spec fn samprate_of(v: MPEGVersion, idx: u8) -> int {
    if v == MPEGVersion::MPEG1 {
        if idx == 0 {
            44100
        } else if idx == 1 {
            48000
        } else {
            32000
        }
    } else if v == MPEGVersion::MPEG2 {
        if idx == 0 {
            22050
        } else if idx == 1 {
            24000
        } else {
            16000
        }
    } else {
        if idx == 0 {
            11025
        } else if idx == 1 {
            12000
        } else {
            8000
        }
    }
}

/// Granules per frame: two for MPEG1, one otherwise.
pub open spec fn ngrans_of(v: MPEGVersion) -> int {
    if v == MPEGVersion::MPEG1 {
        2
    } else {
        1
    }
}

fn bitrate_table(v: MPEGVersion, idx: u8) -> (r: i32)
    requires
        idx < 15,
    ensures
        r as int == bitrate_of(v, idx),
{
    if v == MPEGVersion::MPEG1 {
        if idx == 0 {
            0
        } else if idx == 1 {
            32000
        } else if idx == 2 {
            40000
        } else if idx == 3 {
            48000
        } else if idx == 4 {
            56000
        } else if idx == 5 {
            64000
        } else if idx == 6 {
            80000
        } else if idx == 7 {
            96000
        } else if idx == 8 {
            112000
        } else if idx == 9 {
            128000
        } else if idx == 10 {
            160000
        } else if idx == 11 {
            192000
        } else if idx == 12 {
            224000
        } else if idx == 13 {
            256000
        } else {
            320000
        }
    } else {
        if idx == 0 {
            0
        } else if idx == 1 {
            8000
        } else if idx == 2 {
            16000
        } else if idx == 3 {
            24000
        } else if idx == 4 {
            32000
        } else if idx == 5 {
            40000
        } else if idx == 6 {
            48000
        } else if idx == 7 {
            56000
        } else if idx == 8 {
            64000
        } else if idx == 9 {
            80000
        } else if idx == 10 {
            96000
        } else if idx == 11 {
            112000
        } else if idx == 12 {
            128000
        } else if idx == 13 {
            144000
        } else {
            160000
        }
    }
}

fn samprate_table(v: MPEGVersion, idx: u8) -> (r: i32)
    requires
        idx < 3,
    ensures
        r as int == samprate_of(v, idx),
{
    if v == MPEGVersion::MPEG1 {
        if idx == 0 {
            44100
        } else if idx == 1 {
            48000
        } else {
            32000
        }
    } else if v == MPEGVersion::MPEG2 {
        if idx == 0 {
            22050
        } else if idx == 1 {
            24000
        } else {
            16000
        }
    } else {
        if idx == 0 {
            11025
        } else if idx == 1 {
            12000
        } else {
            8000
        }
    }
}

/// Parse and validate a frame header at the start of `buf`.
///
/// Accepts only Layer III headers with a known version and non-reserved
/// bitrate and sample-rate indices; anything else, including a buffer too
/// short for the header (or for the CRC word the protection bit
/// announces), is rejected as an invalid frame header. On success returns
/// the derived stream parameters and the number of header bytes consumed:
/// 6 when a CRC word follows the header, else 4. A CRC word is consumed
/// but not checked.
pub fn unpack_frame_header(buf: &[u8]) -> (r: Result<(MP3FrameInfo, usize), MP3Error>)
    ensures
        r is Ok <==> frame_header_valid(buf@),
        r is Err ==> r->Err_0 == MP3Error::InvalidFrameHeader,
        r is Ok ==> {
            let info = r->Ok_0.0;
            let consumed = r->Ok_0.1;
            let v = version_of(hdr_ver_idx(buf@));
            &&& consumed == (if hdr_crc_present(buf@) {
                6int
            } else {
                4int
            })
            &&& info.version == v
            &&& info.layer == 3
            &&& info.bitrate as int == bitrate_of(v, hdr_br_idx(buf@))
            &&& info.samprate as int == samprate_of(v, hdr_sr_idx(buf@))
            &&& info.nChans == (if hdr_mode(buf@) == 3 {
                1int
            } else {
                2int
            })
            &&& info.bitsPerSample == 16
            &&& info.outputSamps == info.nChans * 576 * ngrans_of(v)
        },
{
    if buf.len() < 4 {
        return Err(MP3Error::InvalidFrameHeader);
    }
    if !(buf[0] == 0xFF && (buf[1] & 0xE0) == 0xE0) {
        return Err(MP3Error::InvalidFrameHeader);
    }
    let ver_idx = (buf[1] >> 3) & 3;
    let layer_idx = (buf[1] >> 1) & 3;
    let crc_present = buf[1] & 1 == 0;
    let br_idx = (buf[2] >> 4) & 0xF;
    let sr_idx = (buf[2] >> 2) & 3;
    let mode = (buf[3] >> 6) & 3;
    if ver_idx == 1 || layer_idx != 1 || br_idx == 15 || sr_idx == 3 {
        return Err(MP3Error::InvalidFrameHeader);
    }
    if crc_present && buf.len() < 6 {
        return Err(MP3Error::InvalidFrameHeader);
    }
    let ghost b2: u8 = buf@[2];
    proof {
        assert(((b2 >> 4u8) & 0xFu8) < 16 && ((b2 >> 2u8) & 3u8) < 4) by (bit_vector);
    }
    let version = if ver_idx == 3 {
        MPEGVersion::MPEG1
    } else if ver_idx == 2 {
        MPEGVersion::MPEG2
    } else {
        MPEGVersion::MPEG25
    };
    let n_chans: i32 = if mode == 3 {
        1
    } else {
        2
    };
    let n_grans: i32 = if version == MPEGVersion::MPEG1 {
        2
    } else {
        1
    };
    let info = MP3FrameInfo {
        bitrate: bitrate_table(version, br_idx),
        nChans: n_chans,
        samprate: samprate_table(version, sr_idx),
        bitsPerSample: 16,
        outputSamps: n_chans * 576 * n_grans,
        layer: 3,
        version,
    };
    let consumed: usize = if crc_present {
        6
    } else {
        4
    };
    Ok((info, consumed))
}

} // verus!

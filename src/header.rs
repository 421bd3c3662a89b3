use vstd::prelude::*;

verus! {

/// Number of bytes in a stream header.
pub const HEADER_LEN: usize = 14;

/// Channel count declared by a header.
#[derive(Clone, Copy, Debug, PartialEq, Eq, Structural)]
pub enum Channels {
    Rgb,
    Rgba,
}

/// Colour space declared by a header.
#[derive(Clone, Copy, Debug, PartialEq, Eq, Structural)]
pub enum ColorSpace {
    SrgbLinearAlpha,
    AllLinear,
}

/// The parsed 14-byte header of a stream.
#[derive(Clone, Copy, Debug, PartialEq, Eq, Structural)]
pub struct QoiHeader {
    pub width: u32,
    pub height: u32,
    pub channels: Channels,
    pub colorspace: ColorSpace,
}

/// Why a header was rejected.
#[derive(Clone, Copy, Debug, PartialEq, Eq, Structural)]
pub enum HeaderError {
    /// Fewer than 14 bytes.
    Truncated,
    /// The first four bytes are not `qoif`.
    BadMagic,
    /// The channel byte is neither 3 nor 4.
    BadChannels,
    /// The colour-space byte is neither 0 nor 1.
    BadColorSpace,
    /// The width or the height is zero.
    ZeroSize,
}

/// The big-endian 32-bit number in `s[at..at + 4]`.
pub open spec fn be32(s: Seq<u8>, at: int) -> u32 {
    ((s[at] as u32) << 24u32) | ((s[at + 1] as u32) << 16u32) | ((s[at + 2] as u32) << 8u32) | (
    s[at + 3] as u32)
}

/// The four big-endian bytes of `v`.
pub open spec fn be32_bytes(v: u32) -> Seq<u8> {
    seq![(v >> 24u32) as u8, (v >> 16u32) as u8, (v >> 8u32) as u8, v as u8]
}

/// The four magic bytes `qoif`.
pub open spec fn magic() -> Seq<u8> {
    seq![0x71u8, 0x6fu8, 0x69u8, 0x66u8]
}

/// Which error, if any, a header parse of `s` reports.
pub open spec fn header_error(s: Seq<u8>) -> Option<HeaderError> {
    if s.len() < 14 {
        Some(HeaderError::Truncated)
    } else if s.subrange(0, 4) != magic() {
        Some(HeaderError::BadMagic)
    } else if s[12] != 3 && s[12] != 4 {
        Some(HeaderError::BadChannels)
    } else if s[13] != 0 && s[13] != 1 {
        Some(HeaderError::BadColorSpace)
    } else if be32(s, 4) == 0 || be32(s, 8) == 0 {
        Some(HeaderError::ZeroSize)
    } else {
        None
    }
}

/// The header that the first 14 bytes of `s` describe.
pub open spec fn header_of(s: Seq<u8>) -> QoiHeader {
    QoiHeader {
        width: be32(s, 4),
        height: be32(s, 8),
        channels: if s[12] == 3 {
            Channels::Rgb
        } else {
            Channels::Rgba
        },
        colorspace: if s[13] == 0 {
            ColorSpace::SrgbLinearAlpha
        } else {
            ColorSpace::AllLinear
        },
    }
}

/// The 14 bytes that encode `h`.
pub open spec fn header_bytes(h: QoiHeader) -> Seq<u8> {
    magic() + be32_bytes(h.width) + be32_bytes(h.height) + seq![
        if h.channels == Channels::Rgb {
            3u8
        } else {
            4u8
        },
        if h.colorspace == ColorSpace::SrgbLinearAlpha {
            0u8
        } else {
            1u8
        },
    ]
}

/// The result that a parse of `s` gives.
pub open spec fn parse_result(s: Seq<u8>) -> Result<QoiHeader, HeaderError> {
    match header_error(s) {
        Some(e) => Err(e),
        None => Ok(header_of(s)),
    }
}

fn read_be32(data: &[u8], at: usize) -> (v: u32)
    requires
        at + 4 <= data@.len(),
    ensures
        v == be32(data@, at as int),
{
    ((data[at] as u32) << 24u32) | ((data[at + 1] as u32) << 16u32) | ((data[at + 2] as u32)
        << 8u32) | (data[at + 3] as u32)
}

/// Parses the header at the start of `data`.
pub fn parse_header(data: &[u8]) -> (r: Result<QoiHeader, HeaderError>)
    ensures
        r == parse_result(data@),
{
    if data.len() < HEADER_LEN {
        return Err(HeaderError::Truncated);
    }
    if !(data[0] == 0x71u8 && data[1] == 0x6fu8 && data[2] == 0x69u8 && data[3] == 0x66u8) {
        proof {
            if data@.subrange(0, 4) == magic() {
                assert(data@.subrange(0, 4)[0] == data@[0]);
                assert(data@.subrange(0, 4)[1] == data@[1]);
                assert(data@.subrange(0, 4)[2] == data@[2]);
                assert(data@.subrange(0, 4)[3] == data@[3]);
            }
        }
        return Err(HeaderError::BadMagic);
    }
    assert(data@.subrange(0, 4) =~= magic());
    let channels = if data[12] == 3 {
        Channels::Rgb
    } else if data[12] == 4 {
        Channels::Rgba
    } else {
        return Err(HeaderError::BadChannels);
    };
    let colorspace = if data[13] == 0 {
        ColorSpace::SrgbLinearAlpha
    } else if data[13] == 1 {
        ColorSpace::AllLinear
    } else {
        return Err(HeaderError::BadColorSpace);
    };
    let width = read_be32(data, 4);
    let height = read_be32(data, 8);
    if width == 0 || height == 0 {
        return Err(HeaderError::ZeroSize);
    }
    Ok(QoiHeader { width, height, channels, colorspace })
}

/// The pixel count of any header fits in 64 bits.
pub proof fn lemma_area_fits(h: QoiHeader)
    ensures
        0 <= h.width as int * h.height as int <= u64::MAX,
{
    let (w, hh) = (h.width as int, h.height as int);
    assert(0 <= w * hh <= 0xFFFF_FFFF * 0xFFFF_FFFF) by (nonlinear_arith)
        requires
            0 <= w <= 0xFFFF_FFFF,
            0 <= hh <= 0xFFFF_FFFF,
    ;
}

proof fn lemma_be32_round_trip(v: u32)
    ensures
        ((((v >> 24u32) as u8) as u32) << 24u32) | ((((v >> 16u32) as u8) as u32) << 16u32) | (
        (((v >> 8u32) as u8) as u32) << 8u32) | ((v as u8) as u32) == v,
{
    assert(((((v >> 24u32) as u8) as u32) << 24u32) | ((((v >> 16u32) as u8) as u32) << 16u32)
        | ((((v >> 8u32) as u8) as u32) << 8u32) | ((v as u8) as u32) == v) by (bit_vector);
}

/// Header round trip: the bytes that encode a header with nonzero
/// dimensions parse back to that same header, whatever follows them.
pub proof fn lemma_header_round_trip(h: QoiHeader, rest: Seq<u8>)
    requires
        h.width != 0,
        h.height != 0,
    ensures
        parse_result(header_bytes(h) + rest) == Ok::<QoiHeader, HeaderError>(h),
{
    let s = header_bytes(h) + rest;
    lemma_be32_round_trip(h.width);
    lemma_be32_round_trip(h.height);
    assert(s.subrange(0, 4) =~= magic());
    assert(s[4] == be32_bytes(h.width)[0]);
    assert(s[5] == be32_bytes(h.width)[1]);
    assert(s[6] == be32_bytes(h.width)[2]);
    assert(s[7] == be32_bytes(h.width)[3]);
    assert(s[8] == be32_bytes(h.height)[0]);
    assert(s[9] == be32_bytes(h.height)[1]);
    assert(s[10] == be32_bytes(h.height)[2]);
    assert(s[11] == be32_bytes(h.height)[3]);
    assert(be32(s, 4) == h.width);
    assert(be32(s, 8) == h.height);
    assert(header_of(s) == h);
}

} // verus!

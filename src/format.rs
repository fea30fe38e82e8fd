use vstd::prelude::*;
use crate::models::ModelKind;

verus! {

/// Highest format version this library reads and the one it writes.
pub const VERSION: u32 = 1;

/// Number of bytes before the coded stream.
pub const HEADER_LEN: usize = 19;

/// Number of channels per pixel.
pub const CHANNELS: u8 = 3;

/// Why a stream cannot be turned into an image, or an image into a stream.
#[derive(Clone, Copy, Debug, PartialEq, Eq, Structural)]
pub enum FormatError {
    /// Fewer bytes than a header holds.
    Truncated,
    /// The stream does not start with the magic bytes.
    BadMagic,
    /// The stream's version is newer than this library.
    UnsupportedVersion,
    /// The predictor identifier is neither Left nor Average.
    UnknownPredictor,
    /// The coded stream holds another number of residual bytes than the
    /// header's dimensions call for.
    LengthMismatch,
    /// The arithmetic coder reported a failure on the bit stream.
    Stream,
    /// The image has more residual bytes than the symbol model can count.
    TooLarge,
}

/// The fields of a file header.
#[derive(Clone, Copy, Debug, PartialEq, Eq, Structural)]
pub struct Header {
    pub version: u32,
    pub height: u32,
    pub width: u32,
    pub channels: u8,
    pub predictor: ModelKind,
}

pub open spec fn magic() -> Seq<u8> {
    seq![0x45u8, 0x4Cu8, 0x4Cu8, 0x41u8]
}

pub open spec fn model_id(k: ModelKind) -> u16 {
    match k {
        ModelKind::Left => 0,
        ModelKind::Average => 1,
    }
}

/// Big-endian bytes of a 32-bit value.
pub open spec fn u32_be(v: u32) -> Seq<u8> {
    seq![(v / 0x1000000) as u8, (v / 0x10000 % 0x100) as u8, (v / 0x100 % 0x100) as u8, (v % 0x100) as u8]
}

/// Big-endian bytes of a 16-bit value.
pub open spec fn u16_be(v: u16) -> Seq<u8> {
    seq![(v / 0x100) as u8, (v % 0x100) as u8]
}

/// The 32-bit value stored big-endian at `s[i .. i + 4]`.
pub open spec fn be_u32_at(s: Seq<u8>, i: int) -> u32 {
    (s[i] * 0x1000000 + s[i + 1] * 0x10000 + s[i + 2] * 0x100 + s[i + 3]) as u32
}

/// The 16-bit value stored big-endian at `s[i .. i + 2]`.
pub open spec fn be_u16_at(s: Seq<u8>, i: int) -> u16 {
    (s[i] * 0x100 + s[i + 1]) as u16
}

/// The bytes of a header: magic, version, height, width, channel count and
/// predictor identifier.
pub open spec fn header_bytes(h: Header) -> Seq<u8> {
    magic() + u32_be(h.version) + u32_be(h.height) + u32_be(h.width) + seq![h.channels]
        + u16_be(model_id(h.predictor))
}

/// The first defect of the bytes `b` read as a header, if any.
pub open spec fn header_error(b: Seq<u8>) -> Option<FormatError> {
    if b.len() < HEADER_LEN {
        Some(FormatError::Truncated)
    } else if b.take(4) != magic() {
        Some(FormatError::BadMagic)
    } else if be_u32_at(b, 4) > VERSION {
        Some(FormatError::UnsupportedVersion)
    } else if be_u16_at(b, 17) > 1 {
        Some(FormatError::UnknownPredictor)
    } else {
        None
    }
}

/// The header that well-formed bytes `b` hold.
pub open spec fn header_of(b: Seq<u8>) -> Header {
    Header {
        version: be_u32_at(b, 4),
        height: be_u32_at(b, 8),
        width: be_u32_at(b, 12),
        channels: b[16],
        predictor: if be_u16_at(b, 17) == 0 { ModelKind::Left } else { ModelKind::Average },
    }
}

fn push_u32(out: &mut Vec<u8>, v: u32)
    ensures
        final(out)@ == old(out)@ + u32_be(v),
{
    out.push((v / 0x1000000) as u8);
    out.push((v / 0x10000 % 0x100) as u8);
    out.push((v / 0x100 % 0x100) as u8);
    out.push((v % 0x100) as u8);
    assert(final(out)@ =~= old(out)@ + u32_be(v));
}

fn read_u32(b: &[u8], i: usize) -> (r: u32)
    requires
        i + 4 <= b@.len(),
    ensures
        r == be_u32_at(b@, i as int),
{
    (b[i] as u32) * 0x1000000 + (b[i + 1] as u32) * 0x10000 + (b[i + 2] as u32) * 0x100 + (b[i + 3] as u32)
}

/// The bytes of header `h`.
pub fn write_header(h: &Header) -> (r: Vec<u8>)
    ensures
        r@ == header_bytes(*h),
{
    let mut out: Vec<u8> = Vec::new();
    out.push(0x45u8);
    out.push(0x4Cu8);
    out.push(0x4Cu8);
    out.push(0x41u8);
    push_u32(&mut out, h.version);
    push_u32(&mut out, h.height);
    push_u32(&mut out, h.width);
    out.push(h.channels);
    let id: u16 = match h.predictor {
        ModelKind::Left => 0,
        ModelKind::Average => 1,
    };
    out.push((id / 0x100) as u8);
    out.push((id % 0x100) as u8);
    assert(out@ =~= header_bytes(*h));
    out
}

/// Reads a header from the start of `b`.
pub fn parse_header(b: &[u8]) -> (r: Result<Header, FormatError>)
    ensures
        match r {
            Ok(h) => header_error(b@) is None && h == header_of(b@),
            Err(e) => header_error(b@) == Some(e),
        },
{
    if b.len() < HEADER_LEN {
        return Err(FormatError::Truncated);
    }
    if !(b[0] == 0x45u8 && b[1] == 0x4Cu8 && b[2] == 0x4Cu8 && b[3] == 0x41u8) {
        assert(b@.take(4) != magic()) by {
            if b@.take(4) == magic() {
                assert(b@.take(4)[0] == b@[0]);
                assert(b@.take(4)[1] == b@[1]);
                assert(b@.take(4)[2] == b@[2]);
                assert(b@.take(4)[3] == b@[3]);
            }
        }
        return Err(FormatError::BadMagic);
    }
    assert(b@.take(4) =~= magic());
    let version = read_u32(b, 4);
    if version > VERSION {
        return Err(FormatError::UnsupportedVersion);
    }
    let height = read_u32(b, 8);
    let width = read_u32(b, 12);
    let channels = b[16];
    let id = (b[17] as u16) * 0x100 + (b[18] as u16);
    let predictor = if id == 0 {
        ModelKind::Left
    } else if id == 1 {
        ModelKind::Average
    } else {
        return Err(FormatError::UnknownPredictor);
    };
    Ok(Header { version, height, width, channels, predictor })
}

proof fn lemma_u32_be(v: u32)
    ensures
        be_u32_at(u32_be(v), 0) == v,
{
    let s = u32_be(v);
    assert(s[0] * 0x1000000 + s[1] * 0x10000 + s[2] * 0x100 + s[3] == v) by (nonlinear_arith)
        requires
            s[0] == v / 0x1000000,
            s[1] == v / 0x10000 % 0x100,
            s[2] == v / 0x100 % 0x100,
            s[3] == v % 0x100,
            v < 0x100000000,
    ;
}

/// Header round trip: the bytes of a header whose version this library
/// reads parse back to that header.
pub proof fn lemma_header_round_trip(h: Header)
    requires
        h.version <= VERSION,
    ensures
        header_error(header_bytes(h)) is None,
        header_of(header_bytes(h)) == h,
{
    let b = header_bytes(h);
    lemma_u32_be(h.version);
    lemma_u32_be(h.height);
    lemma_u32_be(h.width);
    assert(b.take(4) =~= magic());
    assert(b.subrange(4, 8) =~= u32_be(h.version));
    assert(b.subrange(8, 12) =~= u32_be(h.height));
    assert(b.subrange(12, 16) =~= u32_be(h.width));
    assert(be_u32_at(b, 4) == be_u32_at(u32_be(h.version), 0));
    assert(be_u32_at(b, 8) == be_u32_at(u32_be(h.height), 0));
    assert(be_u32_at(b, 12) == be_u32_at(u32_be(h.width), 0));
    assert(be_u16_at(b, 17) == model_id(h.predictor));
}

} // verus!
